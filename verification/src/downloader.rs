//! The single-asset download pipeline and the batch bookkeeping around it.
//!
//! Fetching bytes and touching the filesystem happen outside this crate, so
//! one download is modelled as a state machine: every call of
//! [`DownloadMachine::step`] consumes the outcome of the previous outside
//! action and decides the next one. The driver performs each action and
//! feeds the outcome back until the machine finishes.

use vstd::prelude::*;
use crate::audio::Audio;
use crate::audio::LocalAudio;
use crate::error::AppError;
use crate::paths::audio_path_chars;
use crate::paths::basename_of;
use crate::paths::cover_path_chars;
use crate::paths::resolve_audio_path;
use crate::paths::resolve_cover_path;

verus! {

use vstd::string::StringExecFns;

/// Coordinates single-asset downloads under a root directory, bounding how
/// many may run at once.
pub struct Downloader {
    /// How many downloads may be in flight at once.
    pub max_concurrent: usize,
    /// The owned root under which every cached file lives.
    pub download_dir: String,
}

/// One progress report for one asset, emitted best-effort at state
/// transitions.
#[derive(Debug)]
pub struct DownloadProgress {
    pub audio_id: String,
    /// Percent of the asset's pipeline that has run, 0 to 100.
    pub progress: u32,
    pub status: DownloadStatus,
}

/// Where one asset stands in a batch.
#[derive(Debug, Clone)]
pub enum DownloadStatus {
    Pending,
    Downloading,
    Completed,
    Failed(String),
}

/// What the pipeline waits for next.
#[derive(Debug, Clone, Copy, PartialEq, Eq, Structural)]
pub enum DownloadPhase {
    /// Waiting to hear whether the audio file is already cached.
    AudioCheck,
    /// Waiting for the outcome of the audio fetch.
    AudioFetch,
    /// Waiting for the outcome of writing the audio bytes.
    AudioWrite,
    /// Waiting to hear whether the cover file is already cached.
    CoverCheck,
    /// Waiting for the outcome of the cover fetch.
    CoverFetch,
    /// Waiting for the outcome of writing the cover bytes.
    CoverWrite,
    /// Waiting for the measured size of the cached audio file.
    Stat,
    /// The pipeline has produced its result.
    Finished,
}

/// The outcome of one outside action, fed back into the machine.
#[derive(Debug)]
pub enum DownloadEvent {
    /// Whether the checked file exists.
    Presence(bool),
    /// The fetch finished; `None` is success, `Some` carries the reason it
    /// failed.
    Fetched(Option<String>),
    /// The write finished; `None` is success, `Some` carries the reason it
    /// failed.
    Written(Option<String>),
    /// The measured file size, where it could be measured.
    Size(Option<u64>),
}

/// What the driver must do next. Every path is relative to the asset root.
#[derive(Debug)]
pub enum DownloadAction {
    /// Report whether this file exists.
    CheckFile(String),
    /// Fetch the audio bytes from this URL.
    FetchAudio(String),
    /// Write the fetched audio bytes to this file.
    WriteAudio(String),
    /// Fetch the cover bytes from this URL.
    FetchCover(String),
    /// Write the fetched cover bytes to this file.
    WriteCover(String),
    /// Measure this file's size.
    StatFile(String),
    /// The download succeeded with this catalog entry.
    Finish(LocalAudio),
    /// The download failed and produced no catalog entry.
    Fail(AppError),
}

/// One in-flight single-asset download.
pub struct DownloadMachine {
    /// The asset being downloaded.
    pub audio: Audio,
    /// The time the entry will carry as its creation stamp.
    pub now: u64,
    /// The deterministic relative path of the audio file.
    pub audio_path: String,
    /// The resolved relative path of the cover file, once known.
    pub cover_target: Option<String>,
    /// The cover path the finished entry will carry.
    pub cover_path: Option<String>,
    pub phase: DownloadPhase,
}

/// The decision-relevant abstraction of a machine: its phase, whether the
/// asset names a cover URL at all, whether that URL has an extractable
/// basename, and whether the cover path is resolved.
pub struct DownloadAbs {
    pub phase: DownloadPhase,
    pub has_cover: bool,
    pub has_usable_cover: bool,
    pub target_set: bool,
}

/// Whether the asset names a cover URL with an extractable basename.
pub open spec fn has_usable_cover(audio: Audio) -> bool {
    match audio.cover {
        Some(url) => basename_of(url@).len() > 0,
        None => false,
    }
}

/// The abstraction of a concrete machine.
pub open spec fn abs_of(m: DownloadMachine) -> DownloadAbs {
    DownloadAbs {
        phase: m.phase,
        has_cover: m.audio.cover is Some,
        has_usable_cover: has_usable_cover(m.audio),
        target_set: m.cover_target is Some,
    }
}

/// Where the pipeline goes after the cover stage is entered: straight to
/// measuring the audio file when there is no usable cover URL, otherwise to
/// checking for a cached cover under the now-resolved cover path.
pub open spec fn abs_cover_entry(a: DownloadAbs) -> DownloadAbs {
    if a.has_usable_cover {
        DownloadAbs { phase: DownloadPhase::CoverCheck, target_set: true, ..a }
    } else {
        DownloadAbs { phase: DownloadPhase::Stat, ..a }
    }
}

/// The abstract transition relation of the pipeline: one step per outside
/// outcome. An event that does not answer the phase's question finishes the
/// machine with a failure.
pub open spec fn abs_step(a: DownloadAbs, e: DownloadEvent) -> DownloadAbs {
    let failed = DownloadAbs { phase: DownloadPhase::Finished, ..a };
    match a.phase {
        DownloadPhase::AudioCheck => match e {
            DownloadEvent::Presence(true) => abs_cover_entry(a),
            DownloadEvent::Presence(false) => DownloadAbs { phase: DownloadPhase::AudioFetch, ..a },
            _ => failed,
        },
        DownloadPhase::AudioFetch => match e {
            DownloadEvent::Fetched(None) => DownloadAbs { phase: DownloadPhase::AudioWrite, ..a },
            _ => failed,
        },
        DownloadPhase::AudioWrite => match e {
            DownloadEvent::Written(None) => abs_cover_entry(a),
            _ => failed,
        },
        DownloadPhase::CoverCheck => match e {
            DownloadEvent::Presence(b) => if !a.target_set {
                failed
            } else if b {
                DownloadAbs { phase: DownloadPhase::Stat, ..a }
            } else if a.has_cover {
                DownloadAbs { phase: DownloadPhase::CoverFetch, ..a }
            } else {
                failed
            },
            _ => failed,
        },
        DownloadPhase::CoverFetch => match e {
            DownloadEvent::Fetched(outcome) => if !a.target_set {
                failed
            } else if outcome is None {
                DownloadAbs { phase: DownloadPhase::CoverWrite, ..a }
            } else {
                // A cover failure is non-fatal: continue without a cover.
                DownloadAbs { phase: DownloadPhase::Stat, ..a }
            },
            _ => failed,
        },
        DownloadPhase::CoverWrite => match e {
            DownloadEvent::Written(_) => if !a.target_set {
                failed
            } else {
                DownloadAbs { phase: DownloadPhase::Stat, ..a }
            },
            _ => failed,
        },
        DownloadPhase::Stat => match e {
            DownloadEvent::Size(_) => failed,
            _ => failed,
        },
        DownloadPhase::Finished => failed,
    }
}

/// Whether this step makes the driver fetch the audio bytes: only a "not
/// cached yet" answer to the audio check does.
pub open spec fn fetches_audio_now(a: DownloadAbs, e: DownloadEvent) -> bool {
    a.phase is AudioCheck && e matches DownloadEvent::Presence(false)
}

/// Whether a run of the pipeline from state `a` through the outcomes
/// `events` ever fetches the audio bytes.
pub open spec fn run_fetches_audio(a: DownloadAbs, events: Seq<DownloadEvent>) -> bool
    decreases events.len(),
{
    if events.len() == 0 {
        false
    } else {
        fetches_audio_now(a, events.first()) || run_fetches_audio(
            abs_step(a, events.first()),
            events.drop_first(),
        )
    }
}

/// Phases from which the audio bytes are settled: the pipeline will never
/// ask about, fetch, or write them again.
pub open spec fn audio_settled(phase: DownloadPhase) -> bool {
    match phase {
        DownloadPhase::AudioCheck | DownloadPhase::AudioFetch | DownloadPhase::AudioWrite => false,
        _ => true,
    }
}

/// Once the audio bytes are settled, no sequence of outcomes makes the
/// pipeline fetch them.
pub proof fn lemma_settled_never_fetches(a: DownloadAbs, events: Seq<DownloadEvent>)
    requires
        audio_settled(a.phase),
    ensures
        !run_fetches_audio(a, events),
    decreases events.len(),
{
    if events.len() > 0 {
        lemma_settled_never_fetches(abs_step(a, events.first()), events.drop_first());
    }
}

/// Idempotent download: a machine that is told its audio file is already
/// cached never fetches the audio, whatever the rest of the run brings —
/// repeating a finished download therefore does no network work for the
/// audio. (The file it addresses is the same both times: the audio path is
/// a function of the asset alone.)
pub proof fn lemma_download_idempotent(a: DownloadAbs, events: Seq<DownloadEvent>)
    requires
        a.phase is AudioCheck,
        events.len() > 0,
        events.first() matches DownloadEvent::Presence(true),
    ensures
        !run_fetches_audio(a, events),
{
    lemma_settled_never_fetches(abs_step(a, events.first()), events.drop_first());
}

/// What one step promises about the concrete data it returns and records,
/// by the phase the machine was in.
pub open spec fn step_post(
    pre: DownloadMachine,
    e: DownloadEvent,
    post: DownloadMachine,
    action: DownloadAction,
) -> bool {
    match pre.phase {
        DownloadPhase::AudioCheck => match e {
            DownloadEvent::Presence(true) => cover_entry_post(pre, post, action),
            DownloadEvent::Presence(false) => {
                &&& post.cover_path == pre.cover_path
                &&& post.cover_target == pre.cover_target
                &&& action matches DownloadAction::FetchAudio(url) && url@
                    == pre.audio.download_url@
            },
            _ => unexpected_post(pre, post, action),
        },
        DownloadPhase::AudioFetch => match e {
            DownloadEvent::Fetched(None) => {
                &&& post.cover_path == pre.cover_path
                &&& post.cover_target == pre.cover_target
                &&& action matches DownloadAction::WriteAudio(p) && p@ == pre.audio_path@
            },
            DownloadEvent::Fetched(Some(reason)) => {
                &&& action matches DownloadAction::Fail(err)
                &&& err matches AppError::Download(m)
                &&& m@ == "Failed to download audio: "@ + reason@
            },
            _ => unexpected_post(pre, post, action),
        },
        DownloadPhase::AudioWrite => match e {
            DownloadEvent::Written(None) => cover_entry_post(pre, post, action),
            DownloadEvent::Written(Some(reason)) => {
                &&& action matches DownloadAction::Fail(err)
                &&& err matches AppError::Io(m)
                &&& m@ == reason@
            },
            _ => unexpected_post(pre, post, action),
        },
        DownloadPhase::CoverCheck => match e {
            DownloadEvent::Presence(b) => if pre.cover_target is None {
                unexpected_post(pre, post, action)
            } else if b {
                &&& post.cover_path == pre.cover_target
                &&& post.cover_target == pre.cover_target
                &&& stat_action(pre, action)
            } else if pre.audio.cover is Some {
                &&& post.cover_path is None
                &&& post.cover_target == pre.cover_target
                &&& action matches DownloadAction::FetchCover(url) && Some(url)
                    == pre.audio.cover
            } else {
                unexpected_post(pre, post, action)
            },
            _ => unexpected_post(pre, post, action),
        },
        DownloadPhase::CoverFetch => match e {
            DownloadEvent::Fetched(outcome) => if pre.cover_target is None {
                unexpected_post(pre, post, action)
            } else if outcome is None {
                &&& post.cover_path is None
                &&& post.cover_target == pre.cover_target
                &&& action matches DownloadAction::WriteCover(p) && Some(p)
                    == pre.cover_target
            } else {
                &&& post.cover_path is None
                &&& post.cover_target == pre.cover_target
                &&& stat_action(pre, action)
            },
            _ => unexpected_post(pre, post, action),
        },
        DownloadPhase::CoverWrite => match e {
            DownloadEvent::Written(outcome) => if pre.cover_target is None {
                unexpected_post(pre, post, action)
            } else {
                &&& post.cover_path == if outcome is None {
                    pre.cover_target
                } else {
                    Option::<String>::None
                }
                &&& post.cover_target == pre.cover_target
                &&& stat_action(pre, action)
            },
            _ => unexpected_post(pre, post, action),
        },
        DownloadPhase::Stat => match e {
            DownloadEvent::Size(s) => {
                &&& post.cover_path == pre.cover_path
                &&& post.cover_target == pre.cover_target
                &&& action matches DownloadAction::Finish(la) && finished_entry_ok(pre, s, la)
            },
            _ => unexpected_post(pre, post, action),
        },
        DownloadPhase::Finished => unexpected_post(pre, post, action),
    }
}

/// An event that does not answer the phase's question: the machine finishes
/// with an `Unknown` failure and records nothing.
pub open spec fn unexpected_post(
    pre: DownloadMachine,
    post: DownloadMachine,
    action: DownloadAction,
) -> bool {
    &&& post.cover_path == pre.cover_path
    &&& post.cover_target == pre.cover_target
    &&& action matches DownloadAction::Fail(err) && err is Unknown
}

/// Entering the cover stage: with no usable cover URL the pipeline measures
/// the audio file; otherwise it resolves the cover's path and asks whether
/// that file is cached.
pub open spec fn cover_entry_post(
    pre: DownloadMachine,
    post: DownloadMachine,
    action: DownloadAction,
) -> bool {
    if has_usable_cover(pre.audio) {
        &&& post.cover_path == pre.cover_path
        &&& post.cover_target matches Some(t) && t@ == cover_target_chars(pre)
        &&& action matches DownloadAction::CheckFile(p) && p@ == cover_target_chars(pre)
    } else {
        &&& post.cover_path == pre.cover_path
        &&& post.cover_target == pre.cover_target
        &&& stat_action(pre, action)
    }
}

/// The resolved relative path of the asset's cover file.
pub open spec fn cover_target_chars(pre: DownloadMachine) -> Seq<char> {
    cover_path_chars(
        pre.audio.platform@,
        match pre.audio.cover {
            Some(url) => url@,
            None => Seq::empty(),
        },
    )
}

/// The next outside action measures the audio file.
pub open spec fn stat_action(pre: DownloadMachine, action: DownloadAction) -> bool {
    action matches DownloadAction::StatFile(p) && p@ == pre.audio_path@
}

/// The catalog entry a finished pipeline hands back: addressed at the
/// machine's audio path, carrying the decided cover path and measured size,
/// created now, never played.
pub open spec fn finished_entry_ok(
    pre: DownloadMachine,
    size: Option<u64>,
    la: LocalAudio,
) -> bool {
    &&& la.path == pre.audio_path
    &&& la.cover_path == pre.cover_path
    &&& la.audio@ == pre.audio@
    &&& la.file_size == size
    &&& la.created_at == pre.now
    &&& la.last_played is None
    &&& la.play_count == 0
}

impl Downloader {
    /// A downloader rooted at `download_dir`, allowing three downloads in
    /// flight at once.
    pub fn new(download_dir: String) -> (r: Downloader)
        ensures
            r.max_concurrent == 3,
            r.download_dir == download_dir,
    {
        Downloader { max_concurrent: 3, download_dir }
    }

    /// Starts one asset's pipeline at time `now`. The machine addresses the
    /// deterministic audio path of the asset, and the first outside action
    /// asks whether that file is already cached — re-deriving the path for
    /// an equal asset always addresses the same file.
    pub fn start_download(&self, audio: Audio, now: u64) -> (r: (DownloadMachine, DownloadAction))
        ensures
            r.0.audio == audio,
            r.0.now == now,
            r.0.audio_path@ == audio_path_chars(audio.platform@, audio.download_url@, audio.format),
            r.0.cover_target is None,
            r.0.cover_path is None,
            r.0.phase is AudioCheck,
            r.1 matches DownloadAction::CheckFile(p) && p@ == r.0.audio_path@,
    {
        let audio_path = resolve_audio_path(
            audio.platform.as_str(),
            audio.download_url.as_str(),
            &audio.format,
        );
        let check = audio_path.clone();
        let m = DownloadMachine {
            audio,
            now,
            audio_path,
            cover_target: None,
            cover_path: None,
            phase: DownloadPhase::AudioCheck,
        };
        (m, DownloadAction::CheckFile(check))
    }
}

impl DownloadMachine {
    /// Feeds the outcome of the previous outside action into the pipeline
    /// and decides the next one. The asset, the creation stamp and the
    /// audio path never change; the phase moves as the abstract transition
    /// relation says; and the returned action and recorded cover path are
    /// pinned per phase by [`step_post`].
    pub fn step(&mut self, e: DownloadEvent) -> (action: DownloadAction)
        ensures
            final(self).audio == old(self).audio,
            final(self).now == old(self).now,
            final(self).audio_path == old(self).audio_path,
            abs_of(*final(self)) == abs_step(abs_of(*old(self)), e),
            (action matches DownloadAction::FetchAudio(_)) == fetches_audio_now(
                abs_of(*old(self)),
                e,
            ),
            step_post(*old(self), e, *final(self), action),
    {
        match self.phase {
            DownloadPhase::AudioCheck => match e {
                DownloadEvent::Presence(true) => self.enter_cover_stage(),
                DownloadEvent::Presence(false) => {
                    self.phase = DownloadPhase::AudioFetch;
                    DownloadAction::FetchAudio(self.audio.download_url.clone())
                },
                _ => self.fail_unexpected(),
            },
            DownloadPhase::AudioFetch => match e {
                DownloadEvent::Fetched(None) => {
                    self.phase = DownloadPhase::AudioWrite;
                    DownloadAction::WriteAudio(self.audio_path.clone())
                },
                DownloadEvent::Fetched(Some(reason)) => {
                    self.phase = DownloadPhase::Finished;
                    DownloadAction::Fail(
                        AppError::Download(
                            String::from_str("Failed to download audio: ").concat(
                                reason.as_str(),
                            ),
                        ),
                    )
                },
                _ => self.fail_unexpected(),
            },
            DownloadPhase::AudioWrite => match e {
                DownloadEvent::Written(None) => self.enter_cover_stage(),
                DownloadEvent::Written(Some(reason)) => {
                    self.phase = DownloadPhase::Finished;
                    DownloadAction::Fail(AppError::Io(reason))
                },
                _ => self.fail_unexpected(),
            },
            DownloadPhase::CoverCheck => match e {
                DownloadEvent::Presence(b) => match &self.cover_target {
                    Some(t) => {
                        if b {
                            let t2 = t.clone();
                            self.cover_path = Some(t2);
                            self.phase = DownloadPhase::Stat;
                            DownloadAction::StatFile(self.audio_path.clone())
                        } else {
                            match &self.audio.cover {
                                Some(url) => {
                                    let u = url.clone();
                                    self.cover_path = None;
                                    self.phase = DownloadPhase::CoverFetch;
                                    DownloadAction::FetchCover(u)
                                },
                                // A resolved cover path always comes from a
                                // cover URL, so this state is unreachable.
                                None => self.fail_unexpected(),
                            }
                        }
                    },
                    None => self.fail_unexpected(),
                },
                _ => self.fail_unexpected(),
            },
            DownloadPhase::CoverFetch => match e {
                DownloadEvent::Fetched(outcome) => match &self.cover_target {
                    Some(t) => match outcome {
                        None => {
                            self.cover_path = None;
                            self.phase = DownloadPhase::CoverWrite;
                            DownloadAction::WriteCover(t.clone())
                        },
                        Some(_) => {
                            // Non-fatal: the asset is kept without a cover.
                            self.cover_path = None;
                            self.phase = DownloadPhase::Stat;
                            DownloadAction::StatFile(self.audio_path.clone())
                        },
                    },
                    None => self.fail_unexpected(),
                },
                _ => self.fail_unexpected(),
            },
            DownloadPhase::CoverWrite => match e {
                DownloadEvent::Written(outcome) => match &self.cover_target {
                    Some(t) => {
                        match outcome {
                            None => {
                                let t2 = t.clone();
                                self.cover_path = Some(t2);
                            },
                            Some(_) => {
                                // Non-fatal: the asset is kept without a
                                // cover.
                                self.cover_path = None;
                            },
                        }
                        self.phase = DownloadPhase::Stat;
                        DownloadAction::StatFile(self.audio_path.clone())
                    },
                    None => self.fail_unexpected(),
                },
                _ => self.fail_unexpected(),
            },
            DownloadPhase::Stat => match e {
                DownloadEvent::Size(s) => {
                    self.phase = DownloadPhase::Finished;
                    let mut la = LocalAudio::new(
                        self.audio_path.clone(),
                        crate::audio::duplicate_opt_string(&self.cover_path),
                        self.audio.duplicate(),
                        self.now,
                    );
                    match s {
                        Some(bytes) => la.record_file_size(bytes),
                        None => {},
                    }
                    DownloadAction::Finish(la)
                },
                _ => self.fail_unexpected(),
            },
            DownloadPhase::Finished => self.fail_unexpected(),
        }
    }

    /// Whether the pipeline has produced its result.
    pub fn is_finished(&self) -> (r: bool)
        ensures
            r == (self.phase is Finished),
    {
        match self.phase {
            DownloadPhase::Finished => true,
            _ => false,
        }
    }

    /// Enters the cover stage after the audio bytes are settled.
    fn enter_cover_stage(&mut self) -> (action: DownloadAction)
        ensures
            final(self).audio == old(self).audio,
            final(self).now == old(self).now,
            final(self).audio_path == old(self).audio_path,
            abs_of(*final(self)) == abs_cover_entry(abs_of(*old(self))),
            cover_entry_post(*old(self), *final(self), action),
            !(action matches DownloadAction::FetchAudio(_)),
    {
        match &self.audio.cover {
            Some(url) => match resolve_cover_path(self.audio.platform.as_str(), url.as_str()) {
                Ok(p) => {
                    let check = p.clone();
                    self.cover_target = Some(p);
                    self.phase = DownloadPhase::CoverCheck;
                    DownloadAction::CheckFile(check)
                },
                Err(_) => {
                    // No extractable basename: treat as no cover at all.
                    self.phase = DownloadPhase::Stat;
                    DownloadAction::StatFile(self.audio_path.clone())
                },
            },
            None => {
                self.phase = DownloadPhase::Stat;
                DownloadAction::StatFile(self.audio_path.clone())
            },
        }
    }

    /// Fails the pipeline on an event that does not answer the current
    /// phase's question.
    fn fail_unexpected(&mut self) -> (action: DownloadAction)
        ensures
            final(self).audio == old(self).audio,
            final(self).now == old(self).now,
            final(self).audio_path == old(self).audio_path,
            final(self).cover_path == old(self).cover_path,
            final(self).cover_target == old(self).cover_target,
            final(self).phase is Finished,
            action matches DownloadAction::Fail(err) && err is Unknown,
    {
        self.phase = DownloadPhase::Finished;
        DownloadAction::Fail(
            AppError::Unknown(String::from_str("event does not answer the pending action")),
        )
    }
}

/// One batch task's outcome, tagged with the index of the input it ran for.
pub type BatchOutcome = (usize, Result<LocalAudio, AppError>);

/// The position of the first outcome tagged with input index `i`, if any.
pub open spec fn first_outcome_index(outcomes: Seq<BatchOutcome>, i: int) -> Option<int>
    decreases outcomes.len(),
{
    if outcomes.len() == 0 {
        None
    } else if outcomes.first().0 as int == i {
        Some(0int)
    } else {
        match first_outcome_index(outcomes.drop_first(), i) {
            Some(j) => Some(j + 1),
            None => None,
        }
    }
}

/// The result input `i` receives from a batch: its first outcome.
pub open spec fn outcome_for(outcomes: Seq<BatchOutcome>, i: int) -> Option<
    Result<LocalAudio, AppError>,
> {
    match first_outcome_index(outcomes, i) {
        Some(j) => Some(outcomes[j].1),
        None => None,
    }
}

/// The outcomes tagged with input index `i`, in arrival order.
pub open spec fn outcomes_tagged(outcomes: Seq<BatchOutcome>, i: int) -> Seq<BatchOutcome>
    decreases outcomes.len(),
{
    if outcomes.len() == 0 {
        Seq::empty()
    } else if outcomes.first().0 as int == i {
        seq![outcomes.first()] + outcomes_tagged(outcomes.drop_first(), i)
    } else {
        outcomes_tagged(outcomes.drop_first(), i)
    }
}

/// A first-outcome position is a position of the sequence.
pub proof fn lemma_first_outcome_index_range(outcomes: Seq<BatchOutcome>, i: int)
    ensures
        match first_outcome_index(outcomes, i) {
            Some(j) => 0 <= j < outcomes.len() && outcomes[j].0 as int == i,
            None => true,
        },
    decreases outcomes.len(),
{
    if outcomes.len() > 0 && outcomes.first().0 as int != i {
        lemma_first_outcome_index_range(outcomes.drop_first(), i);
        match first_outcome_index(outcomes.drop_first(), i) {
            Some(j) => {
                assert(outcomes[j + 1] == outcomes.drop_first()[j]);
            },
            None => {},
        }
    }
}

/// An input's result is its first own outcome: the head of the outcomes
/// tagged with its index.
pub proof fn lemma_outcome_from_tagged(outcomes: Seq<BatchOutcome>, i: int)
    ensures
        outcome_for(outcomes, i) == if outcomes_tagged(outcomes, i).len() == 0 {
            None::<Result<LocalAudio, AppError>>
        } else {
            Some(outcomes_tagged(outcomes, i).first().1)
        },
    decreases outcomes.len(),
{
    lemma_first_outcome_index_range(outcomes, i);
    if outcomes.len() > 0 {
        lemma_outcome_from_tagged(outcomes.drop_first(), i);
        lemma_first_outcome_index_range(outcomes.drop_first(), i);
        if outcomes.first().0 as int == i {
            assert(outcomes_tagged(outcomes, i).first() == outcomes.first());
        } else {
            match first_outcome_index(outcomes.drop_first(), i) {
                Some(j) => {
                    assert(outcomes[j + 1] == outcomes.drop_first()[j]);
                },
                None => {},
            }
        }
    }
}

/// Batch isolation: what one input receives is determined by the outcomes
/// tagged with its own index alone, so another task's failure, retry or
/// delay cannot change it.
pub proof fn lemma_batch_isolation(o1: Seq<BatchOutcome>, o2: Seq<BatchOutcome>, i: int)
    requires
        outcomes_tagged(o1, i) == outcomes_tagged(o2, i),
    ensures
        outcome_for(o1, i) == outcome_for(o2, i),
{
    lemma_outcome_from_tagged(o1, i);
    lemma_outcome_from_tagged(o2, i);
}

/// Collates the outcomes of one batch into input order: slot `i` of the
/// result carries the first outcome tagged `i`, and a "no outcome arrived"
/// failure where a task never reported. Outcomes may arrive in any
/// completion order; inputs without an outcome, or outcomes tagged out of
/// range, affect nothing else.
pub fn arrange_batch_results(n: usize, outcomes: Vec<BatchOutcome>) -> (r: Vec<
    Result<LocalAudio, AppError>,
>)
    ensures
        r@.len() == n,
        forall|i: int|
            0 <= i < n ==> match outcome_for(outcomes@, i) {
                Some(res) => #[trigger] r@[i] == res,
                None => r@[i] matches Err(e) && e is NotFound,
            },
{
    let ghost orig = outcomes@;
    let mut r: Vec<Result<LocalAudio, AppError>> = Vec::new();
    let mut idx: usize = 0;
    while idx < n
        invariant
            0 <= idx <= n,
            r@.len() == idx,
            forall|i: int| 0 <= i < idx ==> (#[trigger] r@[i] matches Err(e) && e is NotFound),
        decreases n - idx,
    {
        r.push(Err(AppError::NotFound(String::from_str("no outcome arrived for this input"))));
        idx = idx + 1;
    }
    let mut rem = outcomes;
    proof {
        assert(orig.skip(rem@.len() as int) =~= Seq::<BatchOutcome>::empty());
    }
    while rem.len() > 0
        invariant
            r@.len() == n,
            rem@ == orig.take(rem@.len() as int),
            rem@.len() <= orig.len(),
            forall|i: int|
                0 <= i < n ==> match outcome_for(orig.skip(rem@.len() as int), i) {
                    Some(res) => #[trigger] r@[i] == res,
                    None => r@[i] matches Err(e) && e is NotFound,
                },
        decreases rem@.len(),
    {
        let ghost t = rem@.len() as int;
        proof {
            assert(orig.skip(t - 1).first() == orig[t - 1]);
            assert(orig.skip(t - 1).drop_first() =~= orig.skip(t));
            assert(rem@.last() == orig[t - 1]);
        }
        match rem.pop() {
            Some((i, res)) => {
                if i < n {
                    r.set(i, res);
                }
                proof {
                    assert(rem@ =~= orig.take(t - 1));
                    assert forall|k: int| 0 <= k < n implies match outcome_for(
                        orig.skip(t - 1),
                        k,
                    ) {
                        Some(res2) => #[trigger] r@[k] == res2,
                        None => r@[k] matches Err(e) && e is NotFound,
                    } by {
                        if k != i as int {
                            assert(outcome_for(orig.skip(t - 1), k) == outcome_for(
                                orig.skip(t),
                                k,
                            )) by {
                                lemma_first_outcome_index_range(orig.skip(t), k);
                                match first_outcome_index(orig.skip(t), k) {
                                    Some(j) => {
                                        assert(orig.skip(t - 1)[j + 1] == orig.skip(t)[j]);
                                    },
                                    None => {},
                                }
                            }
                        }
                    }
                }
            },
            None => {},
        }
    }
    proof {
        assert(orig.skip(0) =~= orig);
    }
    r
}

} // verus!
