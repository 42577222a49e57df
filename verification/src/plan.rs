//! The steps by which a container is set up, and how they are gone through.
use vstd::prelude::*;

use crate::path::{parent, parent_of};
use crate::sys::{
    MountArgs, MountCall, PivotRootArgs, PivotRootCall, ProcText, ProcWrite, UmountArgs, UmountCall,
};

verus! {

/// One step of a setup.
#[derive(Debug)]
pub enum Step {
    Mount(MountCall),
    Umount(UmountCall),
    PivotRoot(PivotRootCall),
    CreateDir { path: String },
    /// Create a directory and those above it that are missing.
    CreateDirAll { path: String },
    CreateFile { path: String },
    SetMode { path: String, mode: u32 },
    /// Create a file with this content.
    WriteFile { path: String, content: String },
    /// Write to a file that the kernel provides.
    WriteProc(ProcWrite),
    Unshare { flags: i32 },
    /// Open the root directory, to come back to it.
    OpenRoot,
    /// Change to the directory that was opened.
    ReturnToRoot,
    ChangeDir { path: String },
    /// Take the steps of `assure_steps`, which depend on what is at the source of the mount.
    Assure(MountCall),
    /// Take the standard streams over from the parent.
    SetupStdio,
    /// Start a program and wait for it.
    Spawn { program: String },
    /// Pass on what comes from the other side.
    RunReactor,
    /// Close the ends of the pipes that belong to the other side.
    CloseOtherSide,
    /// Start a child, which goes on with the next stage.
    Fork,
    /// Wait for the child.
    WaitPid,
}

/// What a `Step` says.
#[verifier::ext_equal]
pub enum Action {
    Mount(MountArgs),
    Umount(UmountArgs),
    PivotRoot(PivotRootArgs),
    CreateDir { path: Seq<char> },
    CreateDirAll { path: Seq<char> },
    CreateFile { path: Seq<char> },
    SetMode { path: Seq<char>, mode: u32 },
    WriteFile { path: Seq<char>, content: Seq<char> },
    WriteProc(ProcText),
    Unshare { flags: i32 },
    OpenRoot,
    ReturnToRoot,
    ChangeDir { path: Seq<char> },
    Assure(MountArgs),
    SetupStdio,
    Spawn { program: Seq<char> },
    RunReactor,
    CloseOtherSide,
    Fork,
    WaitPid,
}

impl View for Step {
    type V = Action;

    open spec fn view(&self) -> Action {
        match self {
            Step::Mount(call) => Action::Mount(call@),
            Step::Umount(call) => Action::Umount(call@),
            Step::PivotRoot(call) => Action::PivotRoot(call@),
            Step::CreateDir { path } => Action::CreateDir { path: path@ },
            Step::CreateDirAll { path } => Action::CreateDirAll { path: path@ },
            Step::CreateFile { path } => Action::CreateFile { path: path@ },
            Step::SetMode { path, mode } => Action::SetMode { path: path@, mode: *mode },
            Step::WriteFile { path, content } => Action::WriteFile {
                path: path@,
                content: content@,
            },
            Step::WriteProc(write) => Action::WriteProc(write@),
            Step::Unshare { flags } => Action::Unshare { flags: *flags },
            Step::OpenRoot => Action::OpenRoot,
            Step::ReturnToRoot => Action::ReturnToRoot,
            Step::ChangeDir { path } => Action::ChangeDir { path: path@ },
            Step::Assure(call) => Action::Assure(call@),
            Step::SetupStdio => Action::SetupStdio,
            Step::Spawn { program } => Action::Spawn { program: program@ },
            Step::RunReactor => Action::RunReactor,
            Step::CloseOtherSide => Action::CloseOtherSide,
            Step::Fork => Action::Fork,
            Step::WaitPid => Action::WaitPid,
        }
    }
}

/// What some steps say.
pub open spec fn actions(steps: Seq<Step>) -> Seq<Action> {
    steps.map_values(|step: Step| step@)
}

/// Appends steps to others.
pub(crate) fn append(steps: &mut Vec<Step>, more: Vec<Step>)
    ensures
        actions(final(steps)@) == actions(old(steps)@) + actions(more@),
{
    let mut more = more;
    let ghost behind = more@;
    steps.append(&mut more);
    proof {
        assert(actions(steps@) =~= actions(old(steps)@) + actions(behind));
    }
}

/// A step says what it is for, and with what.
pub proof fn law_step_says(step: Step)
    ensures
        step matches Step::Mount(call) ==> step@ == Action::Mount(call@),
        step matches Step::Umount(call) ==> step@ == Action::Umount(call@),
        step matches Step::PivotRoot(call) ==> step@ == Action::PivotRoot(call@),
        step matches Step::CreateDir { path } ==> step@ == (Action::CreateDir { path: path@ }),
        step matches Step::CreateDirAll { path } ==> step@ == (Action::CreateDirAll { path: path@ }),
        step matches Step::CreateFile { path } ==> step@ == (Action::CreateFile { path: path@ }),
        step matches Step::SetMode { path, mode } ==> step@ == (Action::SetMode {
            path: path@,
            mode,
        }),
        step matches Step::WriteFile { path, content } ==> step@ == (Action::WriteFile {
            path: path@,
            content: content@,
        }),
        step matches Step::WriteProc(write) ==> step@ == Action::WriteProc(write@),
        step matches Step::Unshare { flags } ==> step@ == (Action::Unshare { flags }),
        step is OpenRoot <==> step@ is OpenRoot,
        step is ReturnToRoot <==> step@ is ReturnToRoot,
        step matches Step::ChangeDir { path } ==> step@ == (Action::ChangeDir { path: path@ }),
        step matches Step::Assure(call) ==> step@ == Action::Assure(call@),
        step is SetupStdio <==> step@ is SetupStdio,
        step matches Step::Spawn { program } ==> step@ == (Action::Spawn { program: program@ }),
        step is RunReactor <==> step@ is RunReactor,
        step is CloseOtherSide <==> step@ is CloseOtherSide,
        step is Fork <==> step@ is Fork,
        step is WaitPid <==> step@ is WaitPid,
{
}

/// Steps say what each of them says, in order.
pub proof fn law_steps_say(steps: Seq<Step>)
    ensures
        actions(steps).len() == steps.len(),
        forall|i: int| 0 <= i < steps.len() ==> #[trigger] actions(steps)[i] == steps[i]@,
{
}

/// What is done next in a setup.
#[derive(Debug)]
pub enum SetupAction<E> {
    Take(Step),
    Finished(Result<(), E>),
}

/// What is done next where these steps are still to be taken, by how the last one went: the steps
/// left afterwards, and the action.  A step that failed ends the setup with its error.
pub open spec fn setup_next<E>(steps: Seq<Step>, last: Result<(), E>) -> (
    Seq<Step>,
    SetupAction<E>,
) {
    match last {
        Err(e) => (steps, SetupAction::Finished(Err(e))),
        Ok(()) => if steps.len() > 0 {
            (steps.skip(1), SetupAction::Take(steps[0]))
        } else {
            (steps, SetupAction::Finished(Ok(())))
        },
    }
}

/// Goes through the steps of a setup: what to do next, given how the last step went.  At the start
/// nothing has gone wrong.
pub fn next_step<E>(steps: &mut Vec<Step>, last: Result<(), E>) -> (r: SetupAction<E>)
    ensures
        (final(steps)@, r) == setup_next(old(steps)@, last),
{
    match last {
        Err(e) => SetupAction::Finished(Err(e)),
        Ok(()) => {
            if steps.len() > 0 {
                let step = steps.remove(0);
                proof {
                    assert(steps@ =~= old(steps)@.skip(1));
                }
                SetupAction::Take(step)
            } else {
                SetupAction::Finished(Ok(()))
            }
        },
    }
}

/// A step that failed ends the setup, with its error, and leaves the others as they are.  Otherwise
/// the first step is taken from the front of the others, and the setup ends well where there is
/// none.
pub proof fn law_next_step<E>(steps: Seq<Step>, last: Result<(), E>)
    ensures
        ({
            let (left, action) = setup_next(steps, last);
            &&& last matches Err(e) ==> action == SetupAction::Finished(Err(e)) && left == steps
            &&& action is Take <==> last is Ok && steps.len() > 0
            &&& action matches SetupAction::Take(step) ==> steps == seq![step] + left
            &&& action matches SetupAction::Finished(Ok(_)) ==> steps.len() == 0 && left.len() == 0
        }),
{
    if steps.len() > 0 {
        assert(steps =~= seq![steps[0]] + steps.skip(1));
    }
}

/// Where a setup stands after the outcomes of some steps, from its start on.
pub open spec fn after_outcomes<E>(steps: Seq<Step>, outcomes: Seq<Result<(), E>>) -> (
    Seq<Step>,
    SetupAction<E>,
)
    decreases outcomes.len(),
{
    if outcomes.len() == 0 {
        setup_next(steps, Ok(()))
    } else {
        setup_next(after_outcomes(steps, outcomes.drop_last()).0, outcomes.last())
    }
}

/// Whether some outcomes are those of a setup: there is one for each step that was taken.
pub open spec fn is_setup_run<E>(steps: Seq<Step>, outcomes: Seq<Result<(), E>>) -> bool
    decreases outcomes.len(),
{
    outcomes.len() > 0 ==> {
        &&& is_setup_run(steps, outcomes.drop_last())
        &&& after_outcomes(steps, outcomes.drop_last()).1 is Take
    }
}

/// The steps are taken in order, each only once all before it went well.  The first that fails ends
/// the setup with its error, and a setup ends well only behind its last step.
pub proof fn law_setup<E>(steps: Seq<Step>, outcomes: Seq<Result<(), E>>)
    requires
        is_setup_run(steps, outcomes),
    ensures
        outcomes.len() <= steps.len(),
        forall|i: int| 0 <= i < outcomes.len() - 1 ==> (#[trigger] outcomes[i]) is Ok,
        after_outcomes(steps, outcomes).1 == if outcomes.len() > 0 && outcomes.last() is Err {
            SetupAction::Finished(outcomes.last())
        } else if outcomes.len() < steps.len() {
            SetupAction::Take(steps[outcomes.len() as int])
        } else {
            SetupAction::Finished(Ok(()))
        },
        outcomes.len() < steps.len() && (outcomes.len() > 0 ==> outcomes.last() is Ok)
            ==> after_outcomes(steps, outcomes).0 == steps.skip(outcomes.len() as int + 1),
    decreases outcomes.len(),
{
    if outcomes.len() > 0 {
        let front = outcomes.drop_last();
        law_setup(steps, front);
        assert forall|i: int| 0 <= i < outcomes.len() - 1 implies (
        #[trigger] outcomes[i]) is Ok by {
            if i < front.len() - 1 {
                assert(front[i] is Ok);
            } else {
                assert(front.last() == outcomes[i]);
            }
        }
        let k = outcomes.len() as int;
        if k < steps.len() {
            assert(steps.skip(k).skip(1) =~= steps.skip(k + 1));
        }
    }
}

/// What is found at a path.
#[derive(Debug, PartialEq, Eq, Structural, Copy, Clone)]
pub enum SourceKind {
    Missing,
    Directory,
    File,
}

/// Tells apart what is found at a path.
pub fn source_kind(present: bool, is_dir: bool) -> (kind: SourceKind)
    ensures
        kind == if !present {
            SourceKind::Missing
        } else if is_dir {
            SourceKind::Directory
        } else {
            SourceKind::File
        },
{
    if !present {
        SourceKind::Missing
    } else if is_dir {
        SourceKind::Directory
    } else {
        SourceKind::File
    }
}

/// What has to be done to mount something at a place that need not be there: a source that is
/// missing is passed over, otherwise a target of the same kind is made first.
pub open spec fn assured(kind: SourceKind, mount: MountArgs) -> Seq<Action> {
    match kind {
        SourceKind::Missing => seq![],
        SourceKind::Directory => seq![
            Action::CreateDirAll { path: mount.target },
            Action::Mount(mount),
        ],
        SourceKind::File => seq![
            Action::CreateDirAll { path: parent(mount.target)->0 },
            Action::CreateFile { path: mount.target },
            Action::Mount(mount),
        ],
    }
}

/// The steps that mount something at a place that need not be there, by what was found at its
/// source.
pub fn assure_steps(kind: SourceKind, mount: MountCall) -> (steps: Vec<Step>)
    requires
        kind is File ==> parent(mount@.target) is Some,
    ensures
        actions(steps@) == assured(kind, mount@),
{
    let mut steps: Vec<Step> = Vec::new();
    let ghost args = mount@;
    match kind {
        SourceKind::Missing => {},
        SourceKind::Directory => {
            steps.push(Step::CreateDirAll { path: mount.target.clone() });
            steps.push(Step::Mount(mount));
        },
        SourceKind::File => {
            let above = parent_of(mount.target.as_str());
            steps.push(Step::CreateDirAll { path: above.unwrap() });
            steps.push(Step::CreateFile { path: mount.target.clone() });
            steps.push(Step::Mount(mount));
        },
    }
    proof {
        assert(actions(steps@) =~= assured(kind, args));
    }
    steps
}

/// Nothing is done for a source that is missing, and anything else is mounted once everything is
/// there for it.
pub proof fn law_assured(kind: SourceKind, mount: MountArgs)
    ensures
        assured(kind, mount).len() == 0 <==> kind is Missing,
        kind !is Missing ==> assured(kind, mount).last() == Action::Mount(mount),
        forall|i: int|
            0 <= i < assured(kind, mount).len() - 1 ==> !(#[trigger] assured(kind, mount)[i] is Mount),
{
}

} // verus!
