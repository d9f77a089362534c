//! Carrying out what an entry answers, one task at a time: what is missing is
//! built and the entry asked again, then every image is written and every launch
//! recorded, in order, and the first failure ends it.

use super::{images, launches, Image, ImageModel, Launch, LaunchModel, Slot, Step, StepModel};
use vstd::prelude::*;

verus! {

/// An operation in progress.
#[derive(Debug)]
pub enum Operation {
    /// The entry is asked what to do.
    Asking,
    /// A kernel is built that the entry misses.
    Building(Slot),
    /// So many of the images are written, and so many of the launches recorded.
    Running(Vec<Image>, Vec<Launch>, usize, usize),
    /// A task failed with this code, after so many bytes were uploaded.
    Stopped(i32, Option<u64>),
}

#[verifier::ext_equal]
pub ghost enum OperationModel {
    Asking,
    Building(Slot),
    Running(Seq<ImageModel>, Seq<LaunchModel>, int, int),
    Stopped(i32, Option<u64>),
}

impl View for Operation {
    type V = OperationModel;

    open spec fn view(&self) -> OperationModel {
        match self {
            Operation::Asking => OperationModel::Asking,
            Operation::Building(slot) => OperationModel::Building(*slot),
            Operation::Running(i, l, written, launched) => OperationModel::Running(
                images(i@),
                launches(l@),
                *written as int,
                *launched as int,
            ),
            Operation::Stopped(code, uploaded) => OperationModel::Stopped(*code, *uploaded),
        }
    }
}

/// What is to be done next.
#[derive(Debug)]
pub enum Task<'a> {
    /// Ask the entry.
    Ask,
    Build(Slot),
    Write(&'a Image),
    Launch(&'a Launch),
    /// Nothing: every task was done.
    Finish,
    /// Nothing: a task failed with this code.
    Stop(i32),
}

#[verifier::ext_equal]
pub ghost enum TaskModel {
    Ask,
    Build(Slot),
    Write(ImageModel),
    Launch(LaunchModel),
    Finish,
    Stop(i32),
}

impl<'a> View for Task<'a> {
    type V = TaskModel;

    open spec fn view(&self) -> TaskModel {
        match self {
            Task::Ask => TaskModel::Ask,
            Task::Build(slot) => TaskModel::Build(*slot),
            Task::Write(image) => TaskModel::Write(image@),
            Task::Launch(launch) => TaskModel::Launch(launch@),
            Task::Finish => TaskModel::Finish,
            Task::Stop(code) => TaskModel::Stop(*code),
        }
    }
}

/// The bytes of the first `n` images.
pub open spec fn image_bytes(written: Seq<ImageModel>, n: nat) -> int
    decreases n,
{
    if n == 0 {
        0
    } else {
        image_bytes(written, (n - 1) as nat) + written[n - 1].bytes.len()
    }
}

/// A count of bytes as a caller is told it.
pub open spec fn told(bytes: int) -> u64 {
    if bytes <= u64::MAX {
        bytes as u64
    } else {
        u64::MAX
    }
}

impl OperationModel {
    /// Nothing is launched before every image is written.
    pub open spec fn wf(self) -> bool {
        match self {
            OperationModel::Running(i, l, written, launched) => {
                &&& 0 <= written <= i.len()
                &&& 0 <= launched <= l.len()
                &&& launched > 0 ==> written == i.len()
            },
            _ => true,
        }
    }

    pub open spec fn task(self) -> TaskModel {
        match self {
            OperationModel::Asking => TaskModel::Ask,
            OperationModel::Building(slot) => TaskModel::Build(slot),
            OperationModel::Running(i, l, written, launched) => if written < i.len() {
                TaskModel::Write(i[written])
            } else if launched < l.len() {
                TaskModel::Launch(l[launched])
            } else {
                TaskModel::Finish
            },
            OperationModel::Stopped(code, _) => TaskModel::Stop(code),
        }
    }

    /// There is something to build, to write or to launch.
    pub open spec fn busy(self) -> bool {
        self.task() is Build || self.task() is Write || self.task() is Launch
    }

    /// The bytes uploaded, once every image is written.
    pub open spec fn uploaded(self) -> Option<u64> {
        match self {
            OperationModel::Running(i, _, written, _) => if written >= i.len() {
                Some(told(image_bytes(i, i.len())))
            } else {
                None
            },
            OperationModel::Stopped(_, uploaded) => uploaded,
            _ => None,
        }
    }

    /// The operation once the entry has answered.
    pub open spec fn answered(self, step: StepModel) -> OperationModel {
        match step {
            StepModel::Build(slot) => OperationModel::Building(slot),
            StepModel::Run(i, l) => OperationModel::Running(i, l, 0, 0),
        }
    }

    /// The operation once its task is done: a kernel that was built sends it back
    /// to the entry.
    pub open spec fn done(self) -> OperationModel {
        match self {
            OperationModel::Running(i, l, written, launched) => if written < i.len() {
                OperationModel::Running(i, l, written + 1, launched)
            } else {
                OperationModel::Running(i, l, written, launched + 1)
            },
            _ => OperationModel::Asking,
        }
    }

    /// The operation after so many tasks.
    pub open spec fn done_times(self, n: nat) -> OperationModel
        decreases n,
    {
        if n == 0 {
            self
        } else {
            self.done_times((n - 1) as nat).done()
        }
    }

    /// The operation once its task has failed.
    pub open spec fn failed(self, code: i32) -> OperationModel {
        OperationModel::Stopped(code, self.uploaded())
    }
}

impl Operation {
    /// An operation that begins by asking its entry.
    pub fn new() -> (r: Self)
        ensures
            r@ == OperationModel::Asking,
            r@.wf(),
    {
        Operation::Asking
    }

    /// What is to be done next.
    pub fn task(&self) -> (r: Task<'_>)
        requires
            self@.wf(),
        ensures
            r@ == self@.task(),
    {
        match self {
            Operation::Asking => Task::Ask,
            Operation::Building(slot) => Task::Build(*slot),
            Operation::Running(i, l, written, launched) => if *written < i.len() {
                Task::Write(&i[*written])
            } else if *launched < l.len() {
                Task::Launch(&l[*launched])
            } else {
                Task::Finish
            },
            Operation::Stopped(code, _) => Task::Stop(*code),
        }
    }

    /// Take the entry's answer.
    pub fn answered(self, step: Step) -> (r: Self)
        requires
            self@.task() is Ask,
        ensures
            r@ == self@.answered(step@),
            r@.wf(),
    {
        match step {
            Step::Build(slot) => Operation::Building(slot),
            Step::Run(i, l) => Operation::Running(i, l, 0, 0),
        }
    }

    /// The task is done.
    pub fn done(self) -> (r: Self)
        requires
            self@.wf(),
            self@.busy(),
        ensures
            r@ == self@.done(),
            r@.wf(),
    {
        match self {
            Operation::Running(i, l, written, launched) => if written < i.len() {
                Operation::Running(i, l, written + 1, launched)
            } else {
                assert(launched < l.len());
                Operation::Running(i, l, written, launched + 1)
            },
            _ => Operation::Asking,
        }
    }

    /// The task failed, or the entry refused.
    pub fn failed(self, code: i32) -> (r: Self)
        requires
            self@.wf(),
        ensures
            r@ == self@.failed(code),
            r@.wf(),
    {
        let uploaded: Option<u64> = self.uploaded();
        Operation::Stopped(code, uploaded)
    }

    /// The bytes uploaded, once every image is written.
    pub fn uploaded(&self) -> (r: Option<u64>)
        requires
            self@.wf(),
        ensures
            r == self@.uploaded(),
    {
        match self {
            Operation::Running(i, _, written, _) => if *written >= i.len() {
                Some(count_bytes(i))
            } else {
                None
            },
            Operation::Stopped(_, uploaded) => *uploaded,
            _ => None,
        }
    }
}

fn count_bytes(written: &Vec<Image>) -> (r: u64)
    ensures
        r == told(image_bytes(images(written@), written@.len())),
{
    let mut total: u64 = 0;
    let mut i: usize = 0;
    while i < written.len()
        invariant
            i <= written.len(),
            total == told(image_bytes(images(written@), i as nat)),
            image_bytes(images(written@), i as nat) >= 0,
        decreases written.len() - i,
    {
        total = total.saturating_add(written[i].bytes.len() as u64);
        i += 1;
    }
    total
}

/// A step that runs writes every image, in order, before it records every launch,
/// in order, and nothing else; it tells the bytes uploaded from the last image on
/// and never before, also where a later task fails.
pub proof fn law_images_are_written_before_launches(
    start: OperationModel,
    i: Seq<ImageModel>,
    l: Seq<LaunchModel>,
    n: nat,
    code: i32,
)
    requires
        n <= i.len() + l.len(),
    ensures
        ({
            let at = start.answered(StepModel::Run(i, l)).done_times(n);
            &&& at.wf()
            &&& at.task() == (if n < i.len() {
                TaskModel::Write(i[n as int])
            } else if n < i.len() + l.len() {
                TaskModel::Launch(l[n - i.len()])
            } else {
                TaskModel::Finish
            })
            &&& at.failed(code).task() == TaskModel::Stop(code)
            &&& at.failed(code).uploaded() == at.uploaded()
            &&& at.uploaded() == (if n < i.len() {
                None
            } else {
                Some(told(image_bytes(i, i.len())))
            })
        }),
{
    lemma_done_times(start, i, l, n);
}

proof fn lemma_done_times(
    start: OperationModel,
    i: Seq<ImageModel>,
    l: Seq<LaunchModel>,
    n: nat,
)
    requires
        n <= i.len() + l.len(),
    ensures
        start.answered(StepModel::Run(i, l)).done_times(n) == (if n < i.len() {
            OperationModel::Running(i, l, n as int, 0)
        } else {
            OperationModel::Running(i, l, i.len() as int, n - i.len())
        }),
    decreases n,
{
    if n > 0 {
        lemma_done_times(start, i, l, (n - 1) as nat);
    }
}

/// An operation writes its images in order, then launches in order, and is then
/// finished; a build leads back to the question, and a failure stops it.
pub proof fn law_operation_goes_step_by_step(
    i: Seq<ImageModel>,
    l: Seq<LaunchModel>,
    written: int,
    launched: int,
    slot: Slot,
    code: i32,
)
    requires
        0 <= written <= i.len(),
        0 <= launched <= l.len(),
    ensures
        ({
            let o = OperationModel::Running(i, l, written, launched);
            &&& written < i.len() ==> o.task() == TaskModel::Write(i[written]) && o.done()
                == OperationModel::Running(i, l, written + 1, launched)
            &&& written == i.len() && launched < l.len() ==> o.task() == TaskModel::Launch(
                l[launched],
            ) && o.done() == OperationModel::Running(i, l, written, launched + 1)
            &&& written == i.len() && launched == l.len() ==> o.task() is Finish
            &&& o.failed(code).task() == TaskModel::Stop(code)
        }),
        OperationModel::Asking.task() is Ask,
        OperationModel::Building(slot).task() == TaskModel::Build(slot),
        OperationModel::Building(slot).done() is Asking,
        OperationModel::Asking.answered(StepModel::Build(slot)) == OperationModel::Building(slot),
        OperationModel::Asking.answered(StepModel::Run(i, l)) == OperationModel::Running(
            i,
            l,
            0,
            0,
        ),
{
}

/// What an operation uploaded is told once every image is written: the bytes of
/// all of them, or the largest number where they are more.
pub proof fn law_uploaded_bytes_are_those_of_the_images(
    i: Seq<ImageModel>,
    l: Seq<LaunchModel>,
    launched: int,
    n: nat,
    code: i32,
)
    requires
        n < i.len(),
    ensures
        image_bytes(i, 0) == 0,
        image_bytes(i, n + 1) == image_bytes(i, n) + i[n as int].bytes.len(),
        OperationModel::Running(i, l, n as int, launched).uploaded() is None,
        image_bytes(i, i.len()) <= u64::MAX ==> OperationModel::Running(
            i,
            l,
            i.len() as int,
            launched,
        ).uploaded() == Some(image_bytes(i, i.len()) as u64),
        image_bytes(i, i.len()) > u64::MAX ==> OperationModel::Running(
            i,
            l,
            i.len() as int,
            launched,
        ).uploaded() == Some(u64::MAX),
        OperationModel::Running(i, l, i.len() as int, launched).failed(code).uploaded()
            == OperationModel::Running(i, l, i.len() as int, launched).uploaded(),
{
}

} // verus!
