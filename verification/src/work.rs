//! The course of a task once its share link is resolved: what is saved, in which
//! order, and what is noted of it. The caller downloads and saves the files.
use crate::images::{images_model, ImageModel, ShareImage};
use crate::naming::{safe_id, safe_video_id};
use crate::tasks::{
    image_planned, plan_image, plan_task, task_planned, video_planned, EventModel, FilePlan,
    ImagePlan, PlanModel, TaskError, TaskErrorModel, TaskEvent, TaskPlan, WorkModel,
};

use crate::weburl::{optional_text, UrlModel};
use vstd::prelude::*;

verus! {

/// How far a task has come.
#[derive(Debug, Clone, Copy, PartialEq, Eq, Structural)]
pub enum Phase {
    /// What is saved has not been settled.
    Start,
    /// The video is to be saved.
    Video,
    /// The video is being saved.
    VideoPending,
    /// So many images have been saved.
    Images(usize),
    /// The image after so many is being saved.
    ImagePending(usize),
    Done,
}

/// What a task does next.
pub enum RunStep {
    /// The event is to be noted.
    Note(TaskEvent),
    /// The video at the address is to be saved, and then reported as saved.
    SaveVideo { address: String, file: FilePlan },
    /// The image is to be saved, and then reported as saved.
    SaveImage(ImagePlan),
    /// Nothing is left.
    Finished,
}

/// What a [`RunStep`] holds.
pub enum RunStepModel {
    Note(EventModel),
    SaveVideo { address: Seq<char>, file: PlanModel },
    SaveImage { url: UrlModel, file: PlanModel },
    Finished,
}

impl View for RunStep {
    type V = RunStepModel;

    open spec fn view(&self) -> RunStepModel {
        match self {
            RunStep::Note(event) => RunStepModel::Note(event@),
            RunStep::SaveVideo { address, file } => RunStepModel::SaveVideo {
                address: address@,
                file: file@,
            },
            RunStep::SaveImage(plan) => RunStepModel::SaveImage {
                url: plan.url@,
                file: plan.file@,
            },
            RunStep::Finished => RunStepModel::Finished,
        }
    }
}

/// The course of a task.
pub struct TaskRun {
    id: u128,
    safe: String,
    media_url: Option<String>,
    images: Vec<ShareImage>,
    phase: Phase,
    pending: String,
}

/// What a [`TaskRun`] holds.
#[verifier::ext_equal]
pub struct RunModel {
    pub id: u128,
    /// The letters and digits of the video's number.
    pub safe: Seq<char>,
    pub media_url: Option<Seq<char>>,
    pub images: Seq<ImageModel>,
    pub phase: Phase,
    /// The name of the file that is being saved.
    pub pending: Seq<char>,
}

impl View for TaskRun {
    type V = RunModel;

    closed spec fn view(&self) -> RunModel {
        RunModel {
            id: self.id,
            safe: self.safe@,
            media_url: optional_text(self.media_url),
            images: images_model(self.images@),
            phase: self.phase,
            pending: self.pending@,
        }
    }
}

/// Each image knows its place among them.
pub open spec fn are_numbered(images: Seq<ImageModel>) -> bool {
    forall|i: int| 0 <= i < images.len() ==> (#[trigger] images[i]).index == i
}

impl RunModel {
    /// A file is being saved.
    pub open spec fn is_pending(self) -> bool {
        self.phase == Phase::VideoPending || self.phase is ImagePending
    }

    /// What the task does next, and its state then: the images one after
    /// another, or the video, with a note before the first file and after the
    /// last image.
    pub open spec fn advanced(self) -> Result<(RunStepModel, RunModel), TaskErrorModel> {
        match self.phase {
            Phase::Start => match task_planned(
                self.images.len(),
                self.media_url,
                self.safe,
                self.id,
            ) {
                Err(error) => Err(error),
                Ok(WorkModel::Images(count)) => Ok(
                    (
                        RunStepModel::Note(EventModel::ImagesStarted(count)),
                        RunModel { phase: Phase::Images(0), ..self },
                    ),
                ),
                Ok(WorkModel::Video(_)) => Ok(
                    (
                        RunStepModel::Note(EventModel::VideoStarted),
                        RunModel { phase: Phase::Video, ..self },
                    ),
                ),
            },
            Phase::Video => match video_planned(self.media_url, self.safe, self.id) {
                Err(error) => Err(error),
                Ok(file) => Ok(
                    (
                        RunStepModel::SaveVideo { address: self.media_url->0, file },
                        RunModel { phase: Phase::VideoPending, pending: file.name, ..self },
                    ),
                ),
            },
            Phase::Images(saved) => if saved < self.images.len() {
                let image = self.images[saved as int];
                match image_planned(image.url, image.index, self.safe, self.id) {
                    Err(error) => Err(error),
                    Ok((url, file)) => Ok(
                        (
                            RunStepModel::SaveImage { url, file },
                            RunModel {
                                phase: Phase::ImagePending(saved),
                                pending: file.name,
                                ..self
                            },
                        ),
                    ),
                }
            } else {
                Ok(
                    (
                        RunStepModel::Note(EventModel::ImagesSaved(self.images.len())),
                        RunModel { phase: Phase::Done, ..self },
                    ),
                )
            },
            _ => Ok((RunStepModel::Finished, self)),
        }
    }

    /// What is noted of the file that was being saved, once it is saved, and the
    /// state then.
    pub open spec fn saved(self) -> (EventModel, RunModel) {
        match self.phase {
            Phase::ImagePending(saved) => (
                EventModel::ImageSaved {
                    name: self.pending,
                    index: self.images[saved as int].index,
                    count: self.images.len(),
                },
                RunModel { phase: Phase::Images((saved + 1) as usize), ..self },
            ),
            _ => (
                EventModel::VideoSaved(self.pending),
                RunModel { phase: Phase::Done, ..self },
            ),
        }
    }

    /// How many steps a task takes at most.
    pub open spec fn steps_left(self) -> int {
        match self.phase {
            Phase::Start => 2 * (self.images.len() as int) + 3,
            Phase::Video => 2,
            Phase::VideoPending => 1,
            Phase::Images(saved) => 2 * (self.images.len() - saved) + 1,
            Phase::ImagePending(saved) => 2 * (self.images.len() - saved),
            Phase::Done => 0,
        }
    }

    /// The images are numbered, and the one that is being saved is one of them.
    pub open spec fn is_sound(self) -> bool {
        &&& are_numbered(self.images)
        &&& self.images.len() < usize::MAX
        &&& self.phase matches Phase::Images(saved) ==> saved <= self.images.len()
        &&& self.phase matches Phase::ImagePending(saved) ==> saved < self.images.len()
    }
}

impl TaskRun {
    #[verifier::type_invariant]
    spec fn is_running(self) -> bool {
        self@.is_sound()
    }

    /// The course of a task that found these images and this media file of a
    /// video.
    pub fn start(
        id: u128,
        video_id: &str,
        media_url: Option<String>,
        images: Vec<ShareImage>,
    ) -> (run: TaskRun)
        requires
            are_numbered(images_model(images@)),
            images@.len() < usize::MAX,
        ensures
            run@ == (RunModel {
                id,
                safe: safe_id(video_id@),
                media_url: optional_text(media_url),
                images: images_model(images@),
                phase: Phase::Start,
                pending: Seq::empty(),
            }),
    {
        let pending = String::new();
        assert(images_model(images@).len() == images@.len());
        assert(pending@ =~= Seq::empty());
        TaskRun { id, safe: safe_video_id(video_id), media_url, images, phase: Phase::Start, pending }
    }

    /// What the task does next; see [`RunModel::advanced`].
    pub fn advance(&mut self) -> (step: Result<RunStep, TaskError>)
        requires
            !old(self)@.is_pending(),
        ensures
            match step {
                Ok(step) => old(self)@.advanced() == Ok::<(RunStepModel, RunModel), TaskErrorModel>(
                    (step@, final(self)@),
                ),
                Err(error) => old(self)@.advanced() == Err::<
                    (RunStepModel, RunModel),
                    TaskErrorModel,
                >(error@) && final(self)@ == old(self)@,
            },
    {
        proof {
            use_type_invariant(&*self);
        }
        assert(images_model(self.images@).len() == self.images@.len());
        match self.phase {
            Phase::Start => match plan_task(
                &self.images,
                &self.media_url,
                self.safe.as_str(),
                self.id,
            ) {
                Err(error) => Err(error),
                Ok(TaskPlan::Images(count)) => {
                    self.phase = Phase::Images(0);
                    Ok(RunStep::Note(TaskEvent::ImagesStarted(count)))
                },
                Ok(TaskPlan::Video(_)) => {
                    self.phase = Phase::Video;
                    Ok(RunStep::Note(TaskEvent::VideoStarted))
                },
            },
            Phase::Video => match crate::tasks::plan_video(
                &self.media_url,
                self.safe.as_str(),
                self.id,
            ) {
                Err(error) => Err(error),
                Ok(file) => {
                    let address = match &self.media_url {
                        Some(address) => address.clone(),
                        None => String::new(),
                    };
                    let name = file.name.clone();
                    self.pending = name;
                    self.phase = Phase::VideoPending;
                    Ok(RunStep::SaveVideo { address, file })
                },
            },
            Phase::Images(saved) => {
                if saved < self.images.len() {
                    assert(self@.images[saved as int] == self.images@[saved as int]@);
                    match plan_image(&self.images[saved], self.safe.as_str(), self.id) {
                        Err(error) => Err(error),
                        Ok(plan) => {
                            let name = plan.file.name.clone();
                            self.pending = name;
                            self.phase = Phase::ImagePending(saved);
                            Ok(RunStep::SaveImage(plan))
                        },
                    }
                } else {
                    let count: usize = self.images.len();
                    self.phase = Phase::Done;
                    Ok(RunStep::Note(TaskEvent::ImagesSaved(count)))
                }
            },
            _ => Ok(RunStep::Finished),
        }
    }

    /// Takes note that the file that was being saved is saved; see
    /// [`RunModel::saved`].
    pub fn saved(&mut self) -> (event: TaskEvent)
        requires
            old(self)@.is_pending(),
        ensures
            old(self)@.saved() == (event@, final(self)@),
            event@.is_possible(),
    {
        proof {
            use_type_invariant(&*self);
        }
        assert(images_model(self.images@).len() == self.images@.len());
        let name = self.pending.clone();
        match self.phase {
            Phase::ImagePending(saved) => {
                assert(self@.images[saved as int] == self.images@[saved as int]@);
                let index: usize = self.images[saved].index;
                let count: usize = self.images.len();
                self.phase = Phase::Images(saved + 1);
                TaskEvent::ImageSaved { name, index, count }
            },
            _ => {
                self.phase = Phase::Done;
                TaskEvent::VideoSaved(name)
            },
        }
    }
}

/// The course of a task comes to an end: each step leaves fewer.
pub proof fn tasks_come_to_an_end(run: RunModel)
    requires
        run.is_sound(),
    ensures
        run.steps_left() >= 0,
        !run.is_pending() && run.phase != Phase::Done ==> (run.advanced() matches Ok((_, next))
            ==> next.steps_left() < run.steps_left() && next.is_sound()),
        run.is_pending() ==> run.saved().1.steps_left() < run.steps_left()
            && run.saved().1.is_sound(),
        run.steps_left() == 0 ==> run.phase == Phase::Done,
{
}

/// A post with images has its images saved and not its video, each of them once
/// and in order.
pub proof fn images_are_saved_in_order(run: RunModel)
    requires
        run.is_sound(),
        run.images.len() > 0,
        run.phase == Phase::Start || run.phase is Images || run.phase is ImagePending,
    ensures
        run.phase == Phase::Start ==> run.advanced() == Ok::<
            (RunStepModel, RunModel),
            TaskErrorModel,
        >(
            (
                RunStepModel::Note(EventModel::ImagesStarted(run.images.len())),
                RunModel { phase: Phase::Images(0), ..run },
            ),
        ),
        run.phase matches Phase::Images(saved) ==> (run.advanced() matches Ok((step, next)) ==> {
            &&& saved < run.images.len() ==> step is SaveImage && next.phase == Phase::ImagePending(
                saved,
            )
            &&& saved == run.images.len() ==> step == RunStepModel::Note(
                EventModel::ImagesSaved(run.images.len()),
            ) && next.phase == Phase::Done
        }),
        run.phase matches Phase::ImagePending(saved) ==> {
            &&& run.saved().1.phase == Phase::Images((saved + 1) as usize)
            &&& run.saved().0 == (EventModel::ImageSaved {
                name: run.pending,
                index: saved as nat,
                count: run.images.len(),
            })
        },
{
}

} // verus!
