//! Putting the install script on the device and running it.

use vstd::prelude::*;

use crate::error::ApiError;
use crate::shell::{
    build_run_command, build_upload_command, command_event, run_command, upload_command,
};

verus! {

/// Where the current install script is found.
pub const SCRIPT_URL: &'static str =
    "https://raw.githubusercontent.com/tontonhaval/haval-tool/refs/heads/main/install.sh";

/// One thing to do while installing.
#[derive(Debug, Clone, PartialEq, Eq)]
pub enum Step {
    /// Open the connection to the device.
    Connect,
    /// Show a text in the output log.
    Notify(String),
    /// Send a command to the device.
    Send(String),
    /// Wait for some seconds.
    Wait(u64),
}

/// The mathematical value of a `Step`.
pub enum StepView {
    Connect,
    Notify(Seq<char>),
    Send(Seq<char>),
    Wait(int),
}

impl View for Step {
    type V = StepView;

    open spec fn view(&self) -> StepView {
        match self {
            Step::Connect => StepView::Connect,
            Step::Notify(text) => StepView::Notify(text@),
            Step::Send(command) => StepView::Send(command@),
            Step::Wait(seconds) => StepView::Wait(*seconds as int),
        }
    }
}

/// The values of a list of steps.
pub open spec fn steps_view(steps: Seq<Step>) -> Seq<StepView> {
    steps.map_values(|s: Step| s@)
}

/// Announcing a command, sending it and waiting for it.
pub open spec fn command_steps(title: Seq<char>, command: Seq<char>, seconds: int) -> Seq<
    StepView,
> {
    seq![
        StepView::Notify(title),
        StepView::Notify("$ "@ + command),
        StepView::Send(command),
        StepView::Wait(seconds),
    ]
}

/// The whole installation: connect unless that is done, write the script, make it executable,
/// run it.
pub open spec fn install_steps(
    script: Seq<char>,
    apk_url: Option<Seq<char>>,
    connected: bool,
) -> Seq<StepView> {
    (if connected {
        Seq::empty()
    } else {
        seq![StepView::Connect]
    }) + command_steps(
        "📦 Enviando script para o dispositivo..."@,
        upload_command(script),
        2,
    ) + command_steps(
        "🔧 Definindo permissões de execução..."@,
        "chmod +x /data/local/tmp/install.sh"@,
        1,
    ) + command_steps("🚀 Executando script de instalação..."@, run_command(apk_url), 1)
}

/// The body of a download, out of what downloading gave.
pub fn downloaded(body: Option<String>) -> (r: Result<String, ApiError>)
    ensures
        r == match body {
            Some(text) => Ok(text),
            None => Err(ApiError::DownloadFailed),
        },
{
    match body {
        Some(text) => Ok(text),
        None => Err(ApiError::DownloadFailed),
    }
}

/// Appends the steps of one command.
fn push_command(steps: &mut Vec<Step>, title: &str, command: String, seconds: u64)
    ensures
        steps_view(final(steps)@) == steps_view(old(steps)@) + command_steps(
            title@,
            command@,
            seconds as int,
        ),
{
    let event = command_event(command.as_str());
    steps.push(Step::Notify(title.to_owned()));
    steps.push(Step::Notify(event));
    steps.push(Step::Send(command));
    steps.push(Step::Wait(seconds));
    assert(steps_view(steps@) =~= steps_view(old(steps)@) + command_steps(
        title@,
        command@,
        seconds as int,
    ));
}

/// The steps of an installation.
pub fn plan_installation(script: &str, apk_url: Option<&str>, connected: bool) -> (r: Vec<Step>)
    ensures
        steps_view(r@) == install_steps(
            script@,
            match apk_url {
                Some(url) => Some(url@),
                None => None,
            },
            connected,
        ),
{
    let mut steps: Vec<Step> = Vec::new();
    if !connected {
        steps.push(Step::Connect);
        assert(steps_view(steps@) =~= seq![StepView::Connect]);
    }
    push_command(
        &mut steps,
        "📦 Enviando script para o dispositivo...",
        build_upload_command(script),
        2,
    );
    push_command(
        &mut steps,
        "🔧 Definindo permissões de execução...",
        "chmod +x /data/local/tmp/install.sh".to_owned(),
        1,
    );
    push_command(
        &mut steps,
        "🚀 Executando script de instalação...",
        build_run_command(apk_url),
        1,
    );
    steps
}

/// Whether a failure of a step ends the installation. A text that cannot be shown does not.
pub open spec fn is_fatal(step: StepView) -> bool {
    step is Connect || step is Send
}

/// What is left to do, and what is answered, once the first step left has had its outcome.
pub open spec fn after_step(left: Seq<StepView>, outcome: Result<(), ApiError>) -> (
    Seq<StepView>,
    Result<(), ApiError>,
) {
    if left.len() == 0 {
        (left, Ok(()))
    } else if outcome is Err && is_fatal(left.first()) {
        (Seq::empty(), outcome)
    } else {
        (left.drop_first(), Ok(()))
    }
}

/// An installation under way.
pub struct Installation {
    steps: Vec<Step>,
    done: usize,
}

impl View for Installation {
    type V = Seq<StepView>;

    /// The steps that are left.
    closed spec fn view(&self) -> Seq<StepView> {
        steps_view(self.steps@).skip(self.done as int)
    }
}

impl Installation {
    #[verifier::type_invariant]
    spec fn in_range(self) -> bool {
        self.done <= self.steps@.len()
    }

    /// Starts an installation of the given script.
    pub fn new(script: &str, apk_url: Option<&str>, connected: bool) -> (r: Self)
        ensures
            r@ == install_steps(
                script@,
                match apk_url {
                    Some(url) => Some(url@),
                    None => None,
                },
                connected,
            ),
    {
        let steps = plan_installation(script, apk_url, connected);
        assert(steps_view(steps@).skip(0) =~= steps_view(steps@));
        Installation { steps, done: 0 }
    }

    /// The step to perform now, or none at the end.
    pub fn current(&self) -> (r: Option<&Step>)
        ensures
            match r {
                Some(step) => self@.len() > 0 && step@ == self@.first(),
                None => self@.len() == 0,
            },
    {
        proof {
            use_type_invariant(self);
        }
        if self.done < self.steps.len() {
            Some(&self.steps[self.done])
        } else {
            None
        }
    }

    /// Takes the outcome of the current step: goes on to the next, or ends the installation with
    /// the error.
    pub fn report(&mut self, outcome: Result<(), ApiError>) -> (r: Result<(), ApiError>)
        ensures
            (final(self)@, r) == after_step(old(self)@, outcome),
    {
        proof {
            use_type_invariant(&*self);
        }
        if self.done >= self.steps.len() {
            return Ok(());
        }
        let fatal = match &self.steps[self.done] {
            Step::Connect => true,
            Step::Send(_) => true,
            Step::Notify(_) => false,
            Step::Wait(_) => false,
        };
        if fatal && outcome.is_err() {
            self.done = self.steps.len();
            assert(self@ =~= Seq::empty());
            return outcome;
        }
        self.done = self.done + 1;
        assert(self@ =~= old(self)@.drop_first());
        Ok(())
    }
}

/// The steps that are performed when the steps left have the given outcomes, one after the other.
pub open spec fn performed(left: Seq<StepView>, outcomes: Seq<Result<(), ApiError>>) -> Seq<
    StepView,
>
    decreases outcomes.len(),
{
    if left.len() == 0 || outcomes.len() == 0 {
        Seq::empty()
    } else {
        seq![left.first()] + performed(
            after_step(left, outcomes.first()).0,
            outcomes.drop_first(),
        )
    }
}

/// What is answered when the steps left have the given outcomes, one after the other.
pub open spec fn answer(left: Seq<StepView>, outcomes: Seq<Result<(), ApiError>>) -> Result<
    (),
    ApiError,
>
    decreases outcomes.len(),
{
    if left.len() == 0 || outcomes.len() == 0 {
        Ok(())
    } else {
        let (next, now) = after_step(left, outcomes.first());
        if now is Err {
            now
        } else {
            answer(next, outcomes.drop_first())
        }
    }
}

/// The commands that some steps send.
pub open spec fn commands(steps: Seq<StepView>) -> Seq<Seq<char>>
    decreases steps.len(),
{
    if steps.len() == 0 {
        Seq::empty()
    } else {
        match steps.last() {
            StepView::Send(command) => commands(steps.drop_last()).push(command),
            _ => commands(steps.drop_last()),
        }
    }
}

/// Whether some step that matters failed among the first `n`.
pub open spec fn failed_before(
    left: Seq<StepView>,
    outcomes: Seq<Result<(), ApiError>>,
    n: int,
) -> bool {
    exists|i: int| 0 <= i < n && is_fatal(#[trigger] left[i]) && outcomes[i] is Err
}

/// Whatever the outcomes, steps are performed in their order and none is passed over.
pub proof fn law_steps_keep_their_order(
    left: Seq<StepView>,
    outcomes: Seq<Result<(), ApiError>>,
)
    ensures
        performed(left, outcomes).is_prefix_of(left),
    decreases outcomes.len(),
{
    if left.len() > 0 && outcomes.len() > 0 {
        let next = after_step(left, outcomes.first()).0;
        let later = outcomes.drop_first();
        law_steps_keep_their_order(next, later);
        let rest = performed(next, later);
        assert forall|i: int| 0 <= i < rest.len() implies rest[i] == #[trigger] left[i + 1] by {
            assert(rest[i] == next[i]);
        }
        assert(performed(left, outcomes) =~= left.subrange(
            0,
            performed(left, outcomes).len() as int,
        ));
    } else {
        assert(performed(left, outcomes) =~= left.subrange(0, 0));
    }
}

/// Where no step that matters fails, all are performed and the answer is success.
pub proof fn law_success_performs_every_step(
    left: Seq<StepView>,
    outcomes: Seq<Result<(), ApiError>>,
)
    requires
        outcomes.len() == left.len(),
        !failed_before(left, outcomes, left.len() as int),
    ensures
        performed(left, outcomes) == left,
        answer(left, outcomes) is Ok,
    decreases left.len(),
{
    if left.len() > 0 {
        let rest = left.drop_first();
        let later = outcomes.drop_first();
        assert(left[0] == left.first() && outcomes[0] == outcomes.first());
        assert(!(is_fatal(left[0]) && outcomes[0] is Err));
        if failed_before(rest, later, rest.len() as int) {
            let i = choose|i: int|
                0 <= i < rest.len() && is_fatal(#[trigger] rest[i]) && later[i] is Err;
            assert(rest[i] == left[i + 1] && later[i] == outcomes[i + 1]);
        }
        law_success_performs_every_step(rest, later);
        assert(seq![left.first()] + rest =~= left);
    }
    assert(performed(left, outcomes) =~= left);
}

/// The first step that matters and fails is the last one performed, and its error is the answer.
pub proof fn law_failure_ends_the_installation(
    left: Seq<StepView>,
    outcomes: Seq<Result<(), ApiError>>,
    at: int,
)
    requires
        0 <= at < left.len(),
        at < outcomes.len(),
        is_fatal(left[at]),
        outcomes[at] is Err,
        !failed_before(left, outcomes, at),
    ensures
        performed(left, outcomes) == left.take(at + 1),
        answer(left, outcomes) == outcomes[at],
    decreases at,
{
    let rest = left.drop_first();
    let later = outcomes.drop_first();
    if at == 0 {
        assert(performed(Seq::empty(), later) =~= Seq::empty());
        assert(performed(left, outcomes) =~= left.take(1));
    } else {
        assert(!(is_fatal(left[0]) && outcomes[0] is Err));
        if failed_before(rest, later, at - 1) {
            let i = choose|i: int|
                0 <= i < at - 1 && is_fatal(#[trigger] rest[i]) && later[i] is Err;
            assert(rest[i] == left[i + 1] && later[i] == outcomes[i + 1]);
        }
        law_failure_ends_the_installation(rest, later, at - 1);
        assert(performed(left, outcomes) =~= left.take(at + 1));
    }
}

/// Commands of steps one after the other come one after the other.
proof fn lemma_commands_concat(a: Seq<StepView>, b: Seq<StepView>)
    ensures
        commands(a + b) == commands(a) + commands(b),
    decreases b.len(),
{
    if b.len() == 0 {
        assert(a + b =~= a);
    } else {
        assert((a + b).drop_last() =~= a + b.drop_last());
        assert((a + b).last() == b.last());
        lemma_commands_concat(a, b.drop_last());
    }
    assert(commands(a + b) =~= commands(a) + commands(b));
}

/// The steps of one command send that command alone.
proof fn lemma_commands_of_command(title: Seq<char>, command: Seq<char>, seconds: int)
    ensures
        commands(command_steps(title, command, seconds)) == seq![command],
{
    reveal_with_fuel(commands, 5);
    let steps = command_steps(title, command, seconds);
    let three = steps.drop_last();
    assert(three =~= seq![
        StepView::Notify(title),
        StepView::Notify("$ "@ + command),
        StepView::Send(command),
    ]);
    assert(three.drop_last() =~= seq![
        StepView::Notify(title),
        StepView::Notify("$ "@ + command),
    ]);
    assert(three.drop_last().drop_last() =~= seq![StepView::Notify(title)]);
    assert(commands(steps) =~= seq![command]);
}

/// The device is sent three commands: one writes the script, one makes it executable, one runs
/// it. Whether a connection had to be opened first makes no difference.
pub proof fn law_three_commands(
    script: Seq<char>,
    apk_url: Option<Seq<char>>,
    connected: bool,
)
    ensures
        commands(install_steps(script, apk_url, connected)) == seq![
            upload_command(script),
            "chmod +x /data/local/tmp/install.sh"@,
            run_command(apk_url),
        ],
{
    let first: Seq<StepView> = if connected {
        Seq::empty()
    } else {
        seq![StepView::Connect]
    };
    let upload = command_steps(
        "📦 Enviando script para o dispositivo..."@,
        upload_command(script),
        2,
    );
    let allow = command_steps(
        "🔧 Definindo permissões de execução..."@,
        "chmod +x /data/local/tmp/install.sh"@,
        1,
    );
    let run = command_steps(
        "🚀 Executando script de instalação..."@,
        run_command(apk_url),
        1,
    );
    reveal_with_fuel(commands, 2);
    assert(commands(first) =~= Seq::empty());
    lemma_commands_concat(first, upload);
    lemma_commands_concat(first + upload, allow);
    lemma_commands_concat(first + upload + allow, run);
    lemma_commands_of_command(
        "📦 Enviando script para o dispositivo..."@,
        upload_command(script),
        2,
    );
    lemma_commands_of_command(
        "🔧 Definindo permissões de execução..."@,
        "chmod +x /data/local/tmp/install.sh"@,
        1,
    );
    lemma_commands_of_command("🚀 Executando script de instalação..."@, run_command(apk_url), 1);
    assert(commands(install_steps(script, apk_url, connected)) =~= seq![
        upload_command(script),
        "chmod +x /data/local/tmp/install.sh"@,
        run_command(apk_url),
    ]);
}

} // verus!
