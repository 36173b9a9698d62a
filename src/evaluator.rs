//! The evaluator: how a command tree is run.
//!
//! Every command of the tree, nested or not, is one step. The steps run in
//! the order that a depth-first, left-to-right walk of the tree finishes
//! them: each nested command runs before the command that holds it, and the
//! nested commands of one command run from left to right. A step's arguments
//! are literal words and the captured outputs of earlier steps; the last step
//! is the command of the line itself.
//!
//! Running a program or changing directory is the work of the program around
//! the library. An `Evaluation` tells it what to do next (`next_action`), and
//! is told what came of it (`complete`).
use vstd::prelude::*;

use crate::builtins::{
    BuiltinError,
    CdTarget,
    CdTargetView,
    cd,
    cd_spec,
    exit,
    exit_spec,
    strings_view,
};
use crate::parser::{CommandLine, Param, ParamView, lemma_params_view_index, params_view};
use crate::text::same_text;

verus! {

/// One argument of a step.
#[derive(Debug, PartialEq, Eq)]
pub enum Part {
    /// A word of the line.
    Literal(String),
    /// The captured output of the step with this index.
    Output(usize),
}

/// The mathematical form of a `Part`.
pub enum PartView {
    Literal(Seq<char>),
    Output(int),
}

impl View for Part {
    type V = PartView;

    open spec fn view(&self) -> PartView {
        match self {
            Part::Literal(w) => PartView::Literal(w@),
            Part::Output(k) => PartView::Output(*k as int),
        }
    }
}

/// One command to run: its name and arguments, and whether its standard
/// output is captured for an enclosing command.
#[derive(Debug, PartialEq, Eq)]
pub struct Step {
    pub parts: Vec<Part>,
    pub captured: bool,
}

/// The mathematical form of a `Step`.
pub struct StepView {
    pub parts: Seq<PartView>,
    pub captured: bool,
}

/// The views of a sequence of parts.
pub open spec fn parts_view(ps: Seq<Part>) -> Seq<PartView> {
    ps.map_values(|p: Part| p@)
}

impl View for Step {
    type V = StepView;

    open spec fn view(&self) -> StepView {
        StepView { parts: parts_view(self.parts@), captured: self.captured }
    }
}

/// The views of a sequence of steps.
pub open spec fn steps_view(ss: Seq<Step>) -> Seq<StepView> {
    ss.map_values(|s: Step| s@)
}

/// The steps that run the nested commands among `ps`, in order, numbered
/// from `base`, and the parts of the command that `ps` forms.
pub open spec fn plan_params(ps: Seq<ParamView>, base: int) -> (Seq<StepView>, Seq<PartView>)
    decreases ps,
{
    if ps.len() == 0 {
        (seq![], seq![])
    } else {
        let (steps, parts) = plan_params(ps.drop_last(), base);
        match ps.last() {
            ParamView::Arg(w) => (steps, parts.push(PartView::Literal(w))),
            ParamView::SubCommand(inner) => {
                let (sub_steps, sub_parts) = plan_params(inner, base + steps.len());
                let all = steps + sub_steps.push(StepView { parts: sub_parts, captured: true });
                (all, parts.push(PartView::Output(base + all.len() - 1)))
            },
        }
    }
}

/// The steps that run the command line `ps`; the last one is the line's own
/// command, whose output is not captured.
pub open spec fn plan(ps: Seq<ParamView>) -> Seq<StepView> {
    let (steps, parts) = plan_params(ps, 0);
    steps.push(StepView { parts, captured: false })
}

/// A part that refers to no step at or after the `k`-th.
pub open spec fn part_before(p: PartView, k: int) -> bool {
    p matches PartView::Output(j) ==> 0 <= j < k
}

/// Every part of `parts` refers to a step before the `k`-th.
pub open spec fn parts_before(parts: Seq<PartView>, k: int) -> bool {
    forall|i: int| 0 <= i < parts.len() ==> part_before(#[trigger] parts[i], k)
}

/// Each step takes outputs of earlier steps only.
pub open spec fn refers_back(steps: Seq<StepView>) -> bool {
    forall|k: int| 0 <= k < steps.len() ==> parts_before(#[trigger] steps[k].parts, k)
}

proof fn lemma_parts_view_push(ps: Seq<Part>, p: Part)
    ensures
        parts_view(ps.push(p)) == parts_view(ps).push(p@),
{
    assert(parts_view(ps.push(p)) =~= parts_view(ps).push(p@));
}

proof fn lemma_steps_view_push(ss: Seq<Step>, s: Step)
    ensures
        steps_view(ss.push(s)) == steps_view(ss).push(s@),
{
    assert(steps_view(ss.push(s)) =~= steps_view(ss).push(s@));
}

/// Appends to `steps` the steps of the nested commands among `params`, and
/// returns the parts of the command that `params` forms.
fn plan_into<'a>(params: &Vec<Param<'a>>, steps: &mut Vec<Step>) -> (parts: Vec<Part>)
    requires
        refers_back(steps_view(old(steps)@)),
    ensures
        ({
            let (s, p) = plan_params(params_view(params@), old(steps)@.len() as int);
            &&& steps_view(final(steps)@) == steps_view(old(steps)@) + s
            &&& parts_view(parts@) == p
        }),
        refers_back(steps_view(final(steps)@)),
        parts_before(parts_view(parts@), final(steps)@.len() as int),
    decreases params,
{
    let ghost pv = params_view(params@);
    let ghost base = steps@.len() as int;
    let ghost start = steps_view(steps@);
    let mut parts: Vec<Part> = Vec::new();
    let mut k: usize = 0;
    proof {
        crate::parser::lemma_params_view_len(params@);
        assert(pv.take(0) =~= Seq::<ParamView>::empty());
        assert(start + Seq::<StepView>::empty() =~= start);
        assert(parts_view(parts@) =~= Seq::<PartView>::empty());
    }
    while k < params.len()
        invariant
            pv == params_view(params@),
            pv.len() == params@.len(),
            k <= params.len(),
            base <= steps@.len(),
            start.len() == base,
            ({
                let (s, p) = plan_params(pv.take(k as int), base);
                &&& steps_view(steps@) == start + s
                &&& parts_view(parts@) == p
            }),
            refers_back(steps_view(steps@)),
            parts_before(parts_view(parts@), steps@.len() as int),
        decreases params.len() - k,
    {
        proof {
            lemma_params_view_index(params@, k as int);
            assert(pv.take(k + 1).drop_last() =~= pv.take(k as int));
            assert(pv.take(k + 1).last() == pv[k as int]);
        }
        let ghost s0 = plan_params(pv.take(k as int), base).0;
        match &params[k] {
            Param::Arg(w) => {
                let w: &str = *w;
                let lit = Part::Literal(w.to_owned());
                proof {
                    lemma_parts_view_push(parts@, lit);
                }
                parts.push(lit);
            },
            Param::SubCommand(cl) => {
                let ghost before = steps_view(steps@);
                let inner_parts = plan_into(&cl.params, steps);
                let ghost mid = steps_view(steps@);
                let step = Step { parts: inner_parts, captured: true };
                proof {
                    lemma_steps_view_push(steps@, step);
                }
                steps.push(step);
                let out = Part::Output(steps.len() - 1);
                proof {
                    lemma_parts_view_push(parts@, out);
                    let (sub_steps, sub_parts) = plan_params(params_view(cl.params@), base + s0.len());
                    assert(before == start + s0);
                    assert(mid == before + sub_steps);
                    assert(steps_view(steps@) =~= start + (s0 + sub_steps.push(
                        StepView { parts: sub_parts, captured: true },
                    )));
                    let kk = steps@.len() - 1;
                    assert(steps_view(steps@)[kk].parts == sub_parts);
                    assert forall|q: int| 0 <= q < steps_view(steps@).len() implies parts_before(
                        #[trigger] steps_view(steps@)[q].parts,
                        q,
                    ) by {
                        if q < kk {
                            assert(steps_view(steps@)[q] == mid[q]);
                        }
                    }
                    assert forall|i: int| 0 <= i < parts_view(parts@).len() + 1 implies part_before(
                        #[trigger] parts_view(parts@).push(out@)[i],
                        steps@.len() as int,
                    ) by {
                        if i < parts_view(parts@).len() {
                            assert(parts_view(parts@).push(out@)[i] == parts_view(parts@)[i]);
                        }
                    }
                }
                parts.push(out);
            },
        }
        k = k + 1;
    }
    proof {
        assert(pv.take(k as int) =~= pv);
    }
    parts
}

} // verus!

verus! {

/// Why the evaluation of a line stopped.
#[derive(Debug, PartialEq, Eq)]
pub enum EvalError {
    /// A program could not be started or waited for, or a directory could
    /// not be entered; the text says why.
    SpawnFailure(String),
    /// A builtin refused its arguments.
    BuiltinArgumentError(BuiltinError),
}

/// What the program around the library is to do next.
#[derive(Debug, PartialEq, Eq)]
pub enum Action {
    /// Every step has run.
    Done,
    /// The step's command name is empty: nothing runs, and its output is empty.
    Skip,
    /// Change the working directory.
    ChangeDir(CdTarget),
    /// End the process with this status.
    Exit(u8),
    /// Run a program with these arguments and wait for it; when `captured`,
    /// collect its standard output, else let it use the shell's own streams.
    Run { program: String, args: Vec<String>, captured: bool },
    /// A builtin refused its arguments: the evaluation of the line stops.
    Refused(BuiltinError),
}

/// The mathematical form of an `Action`.
pub enum ActionView {
    Done,
    Skip,
    ChangeDir(CdTargetView),
    Exit(u8),
    Run(Seq<char>, Seq<Seq<char>>, bool),
    Refused(BuiltinError),
}

impl View for Action {
    type V = ActionView;

    open spec fn view(&self) -> ActionView {
        match self {
            Action::Done => ActionView::Done,
            Action::Skip => ActionView::Skip,
            Action::ChangeDir(t) => ActionView::ChangeDir(t@),
            Action::Exit(n) => ActionView::Exit(*n),
            Action::Run { program, args, captured } => ActionView::Run(
                program@,
                strings_view(args@),
                *captured,
            ),
            Action::Refused(e) => ActionView::Refused(*e),
        }
    }
}

/// The arguments of a step once every output it takes is known: a captured
/// output is one argument, as it was produced.
pub open spec fn resolve(parts: Seq<PartView>, outputs: Seq<Seq<char>>) -> Seq<Seq<char>> {
    parts.map_values(
        |p: PartView|
            match p {
                PartView::Literal(w) => w,
                PartView::Output(k) => outputs[k],
            },
    )
}

/// The name of the `cd` builtin.
pub open spec fn cd_name() -> Seq<char> {
    seq!['c', 'd']
}

/// The name of the `exit` builtin.
pub open spec fn exit_name() -> Seq<char> {
    seq!['e', 'x', 'i', 't']
}

/// What the command `argv` calls for: nothing for an empty name, a builtin
/// for its name, else the program of that name.
pub open spec fn dispatch(argv: Seq<Seq<char>>, captured: bool) -> ActionView {
    if argv.len() == 0 || argv[0].len() == 0 {
        ActionView::Skip
    } else if argv[0] == cd_name() {
        match cd_spec(argv.drop_first()) {
            Ok(t) => ActionView::ChangeDir(t),
            Err(e) => ActionView::Refused(e),
        }
    } else if argv[0] == exit_name() {
        match exit_spec(argv.drop_first()) {
            Ok(n) => ActionView::Exit(n),
            Err(e) => ActionView::Refused(e),
        }
    } else {
        ActionView::Run(argv[0], argv.drop_first(), captured)
    }
}

proof fn lemma_strings_view_push(v: Seq<String>, s: String)
    ensures
        strings_view(v.push(s)) == strings_view(v).push(s@),
{
    assert(strings_view(v.push(s)) =~= strings_view(v).push(s@));
}

/// The state of an evaluation: the steps, and the outputs of those that have run.
pub struct EvaluationView {
    pub steps: Seq<StepView>,
    pub outputs: Seq<Seq<char>>,
}

/// What the evaluation in state `e` calls for next.
pub open spec fn next_action_spec(e: EvaluationView) -> ActionView {
    if e.outputs.len() >= e.steps.len() {
        ActionView::Done
    } else {
        let step = e.steps[e.outputs.len() as int];
        dispatch(resolve(step.parts, e.outputs), step.captured)
    }
}

/// The output recorded for the step that the action `a` ran, when `out` came
/// of it: only a program run in captured mode produces output.
pub open spec fn recorded_output(a: ActionView, out: Seq<char>) -> Seq<char> {
    match a {
        ActionView::Run(_, _, true) => out,
        _ => seq![],
    }
}

/// The evaluation of one command line.
pub struct Evaluation {
    steps: Vec<Step>,
    outputs: Vec<String>,
}

impl View for Evaluation {
    type V = EvaluationView;

    closed spec fn view(&self) -> EvaluationView {
        EvaluationView { steps: steps_view(self.steps@), outputs: strings_view(self.outputs@) }
    }
}

impl Evaluation {
    /// Every step takes outputs of earlier steps only, and no more outputs
    /// are known than there are steps.
    pub open spec fn well_formed(&self) -> bool {
        &&& refers_back(self@.steps)
        &&& self@.outputs.len() <= self@.steps.len()
    }

    /// Starts the evaluation of `cl`: its steps, none of which has run.
    pub fn new(cl: &CommandLine) -> (r: Evaluation)
        ensures
            r@.steps == plan(cl@),
            r@.outputs.len() == 0,
            r.well_formed(),
    {
        let mut steps: Vec<Step> = Vec::new();
        proof {
            assert(steps_view(steps@) =~= Seq::<StepView>::empty());
        }
        let parts = plan_into(&cl.params, &mut steps);
        let ghost before = steps@;
        let top = Step { parts, captured: false };
        proof {
            lemma_steps_view_push(steps@, top);
        }
        steps.push(top);
        let r = Evaluation { steps, outputs: Vec::new() };
        proof {
            assert(Seq::<StepView>::empty() + plan_params(cl@, 0).0 =~= plan_params(cl@, 0).0);
            assert(r@.outputs =~= Seq::<Seq<char>>::empty());
            assert forall|q: int| 0 <= q < r@.steps.len() implies parts_before(
                #[trigger] r@.steps[q].parts,
                q,
            ) by {
                if q < before.len() {
                    assert(r@.steps[q] == steps_view(before)[q]);
                }
            }
        }
        r
    }

    /// The arguments of the next step, its outputs taken from the steps run.
    fn resolve_next(&self) -> (argv: Vec<String>)
        requires
            self.well_formed(),
            self@.outputs.len() < self@.steps.len(),
        ensures
            strings_view(argv@) == resolve(
                self@.steps[self@.outputs.len() as int].parts,
                self@.outputs,
            ),
    {
        let k = self.outputs.len();
        let parts = &self.steps[k].parts;
        let ghost pv = parts_view(parts@);
        assert(self@.steps[k as int].parts == pv);
        assert(parts_before(pv, k as int));
        let mut argv: Vec<String> = Vec::new();
        let mut i: usize = 0;
        while i < parts.len()
            invariant
                pv == parts_view(parts@),
                parts_before(pv, k as int),
                k == self.outputs@.len(),
                i <= parts.len(),
                strings_view(argv@) == resolve(pv.take(i as int), self@.outputs),
            decreases parts.len() - i,
        {
            let arg = match &parts[i] {
                Part::Literal(w) => w.clone(),
                Part::Output(j) => {
                    assert(part_before(pv[i as int], k as int));
                    self.outputs[*j].clone()
                },
            };
            proof {
                match pv[i as int] {
                    PartView::Literal(w) => assert(arg@ == w),
                    PartView::Output(j) => assert(arg@ == self@.outputs[j]),
                }
                lemma_strings_view_push(argv@, arg);
                assert(pv.take(i + 1) =~= pv.take(i as int).push(pv[i as int]));
            }
            argv.push(arg);
            proof {
                assert(strings_view(argv@) =~= resolve(pv.take(i + 1), self@.outputs));
            }
            i = i + 1;
        }
        proof {
            assert(pv.take(i as int) =~= pv);
        }
        argv
    }

    /// What the program around the library is to do next.
    pub fn next_action(&self) -> (r: Action)
        requires
            self.well_formed(),
        ensures
            r@ == next_action_spec(self@),
    {
        if self.outputs.len() >= self.steps.len() {
            return Action::Done;
        }
        let captured = self.steps[self.outputs.len()].captured;
        let argv = self.resolve_next();
        if argv.len() == 0 || argv[0].as_str().is_empty() {
            proof {
                if argv.len() > 0 {
                    assert(strings_view(argv@)[0] == argv@[0]@);
                }
            }
            return Action::Skip;
        }
        let ghost av = strings_view(argv@);
        let mut rest: Vec<String> = Vec::new();
        let mut i: usize = 1;
        while i < argv.len()
            invariant
                av == strings_view(argv@),
                1 <= i <= argv.len(),
                strings_view(rest@) == av.subrange(1, i as int),
            decreases argv.len() - i,
        {
            let a = argv[i].clone();
            proof {
                assert(a@ == av[i as int]);
                lemma_strings_view_push(rest@, a);
            }
            rest.push(a);
            proof {
                assert(strings_view(rest@) =~= av.subrange(1, i + 1));
            }
            i = i + 1;
        }
        proof {
            assert(av.subrange(1, i as int) =~= av.drop_first());
            assert(av[0] == argv@[0]@);
            reveal_strlit("cd");
            reveal_strlit("exit");
            assert("cd"@ =~= cd_name());
            assert("exit"@ =~= exit_name());
        }
        let name = argv[0].as_str();
        if same_text(name, "cd") {
            match cd(&rest) {
                Ok(t) => Action::ChangeDir(t),
                Err(e) => Action::Refused(e),
            }
        } else if same_text(name, "exit") {
            match exit(&rest) {
                Ok(n) => Action::Exit(n),
                Err(e) => Action::Refused(e),
            }
        } else {
            Action::Run { program: argv[0].clone(), args: rest, captured }
        }
    }

    /// Records what came of the action that `next_action` called for: `out`
    /// is the standard output that a captured program produced. Nothing
    /// changes once every step has run.
    pub fn complete(&mut self, out: String)
        requires
            old(self).well_formed(),
        ensures
            final(self).well_formed(),
            final(self)@.steps == old(self)@.steps,
            old(self)@.outputs.len() >= old(self)@.steps.len() ==> final(self)@ == old(self)@,
            old(self)@.outputs.len() < old(self)@.steps.len() ==> final(self)@.outputs == old(
                self,
            )@.outputs.push(recorded_output(next_action_spec(old(self)@), out@)),
    {
        if self.outputs.len() >= self.steps.len() {
            return;
        }
        let action = self.next_action();
        let recorded = match action {
            Action::Run { captured: true, .. } => out,
            _ => String::new(),
        };
        self.outputs.push(recorded);
        proof {
            assert(strings_view(self.outputs@) =~= old(self)@.outputs.push(
                recorded_output(next_action_spec(old(self)@), out@),
            ));
        }
    }
}

} // verus!

verus! {

/// The shape of the parts that `plan_params` gives for `ps`.
proof fn lemma_plan_params_shape(ps: Seq<ParamView>, base: int)
    ensures
        ({
            let (steps, parts) = plan_params(ps, base);
            &&& parts.len() == ps.len()
            &&& forall|i: int|
                0 <= i < ps.len() ==> (#[trigger] ps[i] matches ParamView::Arg(w) ==> parts[i]
                    == PartView::Literal(w))
            &&& forall|i: int|
                0 <= i < ps.len() ==> (#[trigger] ps[i] matches ParamView::SubCommand(inner) ==> {
                    &&& parts[i] is Output
                    &&& base <= parts[i]->Output_0 < base + steps.len()
                    &&& steps[parts[i]->Output_0 - base].captured
                    &&& steps[parts[i]->Output_0 - base].parts.len() == inner.len()
                })
            &&& forall|i: int, j: int|
                0 <= i < j < ps.len() && ps[i] is SubCommand && ps[j] is SubCommand ==> (
                #[trigger] parts[i])->Output_0 < (#[trigger] parts[j])->Output_0
        }),
    decreases ps,
{
    if ps.len() > 0 {
        let init = ps.drop_last();
        lemma_plan_params_shape(init, base);
        let (steps0, parts0) = plan_params(init, base);
        let (steps, parts) = plan_params(ps, base);
        assert forall|i: int| 0 <= i < ps.len() - 1 implies ps[i] == init[i] && parts[i] == parts0[i] by {}
        match ps.last() {
            ParamView::Arg(w) => {},
            ParamView::SubCommand(inner) => {
                lemma_plan_params_shape(inner, base + steps0.len());
                let (sub_steps, sub_parts) = plan_params(inner, base + steps0.len());
                assert forall|i: int| 0 <= i < steps0.len() implies steps[i] == steps0[i] by {}
                assert(steps[steps.len() - 1] == StepView { parts: sub_parts, captured: true });
            },
        }
    }
}

/// Nested commands run first. In the plan of a command line the line's own
/// command is the last step and is not captured. Its arguments are its words,
/// unchanged, one for one, and in the place of each nested command the whole
/// output of an earlier step that runs that nested command in captured mode.
/// Nested commands that stand further left run earlier.
pub proof fn lemma_nested_commands_run_first(ps: Seq<ParamView>, outputs: Seq<Seq<char>>)
    ensures
        ({
            let steps = plan(ps);
            let top = steps.last();
            let argv = resolve(top.parts, outputs);
            &&& !top.captured
            &&& argv.len() == ps.len()
            &&& forall|i: int|
                0 <= i < ps.len() ==> (#[trigger] ps[i] matches ParamView::Arg(w) ==> argv[i] == w)
            &&& forall|i: int|
                0 <= i < ps.len() ==> (#[trigger] ps[i] matches ParamView::SubCommand(inner) ==> {
                    let k = top.parts[i]->Output_0;
                    &&& top.parts[i] is Output
                    &&& 0 <= k < steps.len() - 1
                    &&& steps[k].captured
                    &&& steps[k].parts.len() == inner.len()
                    &&& argv[i] == outputs[k]
                })
            &&& forall|i: int, j: int|
                0 <= i < j < ps.len() && ps[i] is SubCommand && ps[j] is SubCommand ==> (
                #[trigger] top.parts[i])->Output_0 < (#[trigger] top.parts[j])->Output_0
        }),
{
    lemma_plan_params_shape(ps, 0);
    let (steps0, parts0) = plan_params(ps, 0);
    let steps = plan(ps);
    assert forall|k: int| 0 <= k < steps0.len() implies steps[k] == steps0[k] by {}
}

} // verus!
