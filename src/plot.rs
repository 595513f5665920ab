//! Turning the steps of a plot into formulae, and collecting plot outputs.

use vstd::prelude::*;
use vstd::string::*;

use crate::error::{RunError, RunErrorView};
use crate::formula::strings_view;
use crate::lowering::causeless;
use crate::model::{
    Action, ActionExecute, ActionScript, Formula, FormulaAndContext, FormulaCapsule,
    FormulaContext, FormulaContextCapsule, FormulaInput, FormulaInputView, GatherDirective, Image,
    LocalLabel, Mount, MountView, Packtype, Plot, PlotInput, PlotOutput, Protoformula, SandboxPort,
    Step,
};
use crate::text::{join_path, path_join, text_eq};

verus! {

/// The directory, under each step's working directory, of its outputs.
pub open spec fn outputs_dir() -> Seq<char> {
    "outputs"@
}

/// The directory on the host where the outputs of step `step` are gathered.
pub open spec fn step_outputs_dir(temp: Seq<char>, step: Seq<char>) -> Seq<char> {
    path_join(path_join(temp, step), outputs_dir())
}

/// Where the output `label` of step `step` is gathered on the host.
pub open spec fn output_path(temp: Seq<char>, step: Seq<char>, label: Seq<char>) -> Seq<char> {
    path_join(path_join(path_join(temp, step), outputs_dir()), label)
}

/// How a pack format is chosen for an output.
#[derive(Clone, Copy, Debug, PartialEq, Eq, Structural)]
pub enum OutputPacktype {
    Tar,
}

/// An output to pack: its name, where it was gathered, and its format.
#[derive(Clone, Debug, PartialEq, Eq)]
pub struct IntermediateOutput {
    pub name: String,
    pub host_path: String,
    pub packtype: OutputPacktype,
}

/// A packed output: its name and its SHA-384 digest in hex.
#[derive(Clone, Debug, PartialEq, Eq)]
pub struct Output {
    pub name: String,
    pub digest: String,
}

/// Runs the steps of one plot in a temporary directory.
#[derive(Clone, Debug, PartialEq, Eq)]
pub struct PlotExecutor {
    pub temp_dir: String,
}

pub open spec fn image_required_msg(step: Seq<char>) -> Seq<char> {
    "invalid plot (step '"@ + step + "'): image required"@
}

pub open spec fn packtype_msg(step: Seq<char>) -> Seq<char> {
    "invalid plot (step '"@ + step + "'): output packtype has to be 'none'"@
}

pub open spec fn failed_step_msg(step: Seq<char>) -> Seq<char> {
    "failed step '"@ + step + "'"@
}

pub open spec fn step_line(step: Seq<char>) -> Seq<char> {
    "step '"@ + step + "'"@
}

pub open spec fn output_line(name: Seq<char>, digest: Seq<char>) -> Seq<char> {
    "  sha384:"@ + digest + " "@ + name
}

/// The image of a step: its own, else the plot's.
pub open spec fn chosen_image(plot_image: Option<Image>, step_image: Option<Image>) -> Option<Image> {
    match step_image {
        Some(i) => Some(i),
        None => plot_image,
    }
}

/// What a step input becomes as a formula input.
pub open spec fn step_input_spec(temp: Seq<char>, input: PlotInput) -> Result<FormulaInputView, RunErrorView> {
    match input {
        PlotInput::Mount(m) => Ok(FormulaInputView::Mount(m@)),
        PlotInput::Literal(l) => Ok(FormulaInputView::Literal(l@)),
        PlotInput::Ware(w) => Ok(FormulaInputView::Ware(w.0@)),
        PlotInput::Pipe(p) => if p.step_name@.len() == 0 {
            Err(RunErrorView::Unimplemented { msg: "plot inputs are not implemented"@ })
        } else {
            Ok(
                FormulaInputView::Mount(
                    MountView::ReadOnly(output_path(temp, p.step_name@, p.label.0@)),
                ),
            )
        },
        PlotInput::CatalogRef(_) => Err(
            RunErrorView::Unimplemented { msg: "catalog inputs are not implemented"@ },
        ),
        PlotInput::Ingest(_) => Err(
            RunErrorView::Unimplemented { msg: "ingest inputs are not implemented"@ },
        ),
    }
}

/// Whether an output directive asks for a pack format other than `none`.
pub open spec fn packs(d: GatherDirective) -> bool {
    d.packtype matches Some(p) && p.0@ != "none"@
}

pub open spec fn inputs_of(v: Seq<(SandboxPort, FormulaInput)>) -> Seq<(Seq<char>, FormulaInputView)> {
    v.map_values(|e: (SandboxPort, FormulaInput)| (e.0.0@, e.1@))
}

/// Turns one step input into a formula input.
pub fn lower_step_input(temp: &str, input: &PlotInput) -> (r: Result<FormulaInput, RunError>)
    ensures
        r matches Ok(i) ==> step_input_spec(temp@, *input) == Ok::<FormulaInputView, RunErrorView>(i@),
        r matches Err(e) ==> step_input_spec(temp@, *input) == Err::<FormulaInputView, RunErrorView>(e@),
{
    match input {
        PlotInput::Mount(m) => Ok(FormulaInput::Mount(copy_mount(m))),
        PlotInput::Literal(l) => Ok(FormulaInput::Literal(String::from_str(l.as_str()))),
        PlotInput::Ware(w) => Ok(FormulaInput::Ware(crate::model::WareID(String::from_str(w.0.as_str())))),
        PlotInput::Pipe(p) => {
            if p.step_name.unicode_len() == 0 {
                return Err(RunError::Unimplemented { msg: String::from_str("plot inputs are not implemented") });
            }
            let step_dir = join_path(temp, p.step_name.as_str());
            let outputs = join_path(step_dir.as_str(), "outputs");
            let path = join_path(outputs.as_str(), p.label.0.as_str());
            Ok(FormulaInput::Mount(Mount::ReadOnly(path)))
        },
        PlotInput::CatalogRef(_) => Err(RunError::Unimplemented { msg: String::from_str("catalog inputs are not implemented") }),
        PlotInput::Ingest(_) => Err(RunError::Unimplemented { msg: String::from_str("ingest inputs are not implemented") }),
    }
}

fn copy_mount(m: &Mount) -> (r: Mount)
    ensures
        r@ == m@,
{
    match m {
        Mount::ReadOnly(h) => Mount::ReadOnly(String::from_str(h.as_str())),
        Mount::ReadWrite(h) => Mount::ReadWrite(String::from_str(h.as_str())),
        Mount::Overlay(h) => Mount::Overlay(String::from_str(h.as_str())),
    }
}

fn copy_strings(v: &Vec<String>) -> (r: Vec<String>)
    ensures
        strings_view(r@) == strings_view(v@),
{
    let mut r: Vec<String> = Vec::new();
    let mut i: usize = 0;
    while i < v.len()
        invariant
            i <= v@.len(),
            strings_view(r@) == strings_view(v@).take(i as int),
        decreases v.len() - i,
    {
        let ghost r0 = r@;
        let copy = String::from_str(v[i].as_str());
        r.push(copy);
        assert(r@ == r0.push(copy));
        assert(strings_view(r0).len() == i);
        assert(strings_view(r@)[i as int] == v@[i as int]@);
        assert(strings_view(r@) =~= strings_view(v@).take(i as int + 1));
        i = i + 1;
    }
    assert(strings_view(v@).take(i as int) =~= strings_view(v@));
    r
}

/// Whether two actions are the same action.
pub open spec fn same_action(a: Action, b: Action) -> bool {
    match (a, b) {
        (Action::Echo, Action::Echo) => true,
        (Action::Execute(x), Action::Execute(y)) => strings_view(x.command@) == strings_view(
            y.command@,
        ) && x.network == y.network,
        (Action::Script(x), Action::Script(y)) => x.interpreter@ == y.interpreter@ && strings_view(
            x.contents@,
        ) == strings_view(y.contents@) && x.network == y.network,
        _ => false,
    }
}

fn copy_action(a: &Action) -> (r: Action)
    ensures
        same_action(r, *a),
{
    match a {
        Action::Echo => Action::Echo,
        Action::Execute(x) => Action::Execute(
            ActionExecute { command: copy_strings(&x.command), network: x.network },
        ),
        Action::Script(x) => Action::Script(
            ActionScript {
                interpreter: String::from_str(x.interpreter.as_str()),
                contents: copy_strings(&x.contents),
                network: x.network,
            },
        ),
    }
}

/// Tests whether an output directive asks for a pack format other than `none`.
fn directive_packs(d: &GatherDirective) -> (r: bool)
    ensures
        r == packs(*d),
{
    proof {
        reveal_strlit("none");
    }
    match &d.packtype {
        Some(p) => !text_eq(p.0.as_str(), "none"),
        None => false,
    }
}

/// The formula inputs that step inputs become, in order, or the
/// failure of the first that fails.
pub open spec fn lower_step_inputs(temp: Seq<char>, inputs: Seq<(SandboxPort, PlotInput)>) -> Result<
    Seq<(Seq<char>, FormulaInputView)>,
    RunErrorView,
>
    decreases inputs.len(),
{
    if inputs.len() == 0 {
        Ok(seq![])
    } else {
        match lower_step_inputs(temp, inputs.drop_last()) {
            Err(e) => Err(e),
            Ok(done) => match step_input_spec(temp, inputs.last().1) {
                Err(e) => Err(e),
                Ok(i) => Ok(done.push((inputs.last().0.0@, i))),
            },
        }
    }
}

pub open spec fn outputs_view(v: Seq<(LocalLabel, GatherDirective)>) -> Seq<
    (Seq<char>, Seq<char>, Option<Seq<char>>),
> {
    v.map_values(
        |e: (LocalLabel, GatherDirective)|
            (
                e.0.0@,
                e.1.from.0@,
                match e.1.packtype {
                    Some(p) => Some(p.0@),
                    None => None,
                },
            ),
    )
}

fn copy_outputs(v: &Vec<(LocalLabel, GatherDirective)>) -> (r: Vec<(LocalLabel, GatherDirective)>)
    ensures
        outputs_view(r@) == outputs_view(v@),
{
    let mut r: Vec<(LocalLabel, GatherDirective)> = Vec::new();
    let mut i: usize = 0;
    while i < v.len()
        invariant
            i <= v@.len(),
            outputs_view(r@) == outputs_view(v@).take(i as int),
        decreases v.len() - i,
    {
        let ghost r0 = r@;
        let d = &v[i].1;
        let packtype = match &d.packtype {
            Some(p) => Some(Packtype(String::from_str(p.0.as_str()))),
            None => None,
        };
        let e = (
            LocalLabel(String::from_str(v[i].0.0.as_str())),
            GatherDirective { from: SandboxPort(String::from_str(d.from.0.as_str())), packtype },
        );
        r.push(e);
        assert(r@ == r0.push(e));
        assert(outputs_view(r0).len() == i);
        assert(outputs_view(r@)[i as int] == outputs_view(v@)[i as int]);
        assert(outputs_view(r@) =~= outputs_view(v@).take(i as int + 1));
        i = i + 1;
    }
    assert(outputs_view(v@).take(i as int) =~= outputs_view(v@));
    r
}

impl PlotExecutor {
    /// The directory where the formula of step `name` gathers its outputs:
    /// `<temp>/<name>/outputs`.
    pub fn step_output_path(&self, name: &str) -> (r: String)
        ensures
            r@ == step_outputs_dir(self.temp(), name@),
    {
        let step_dir = join_path(self.temp_dir.as_str(), name);
        join_path(step_dir.as_str(), "outputs")
    }

    /// The temporary directory of the plot run.
    pub open spec fn temp(&self) -> Seq<char> {
        self.temp_dir@
    }

    /// Builds the formula of the step `name`: its own image or else the
    /// plot's, its inputs with pipes turned into read-only mounts of the
    /// piped outputs, and its action and outputs, which must not ask for a
    /// pack format other than `none`.
    pub fn step_formula(&self, plot: &Plot, name: &str, step: &Protoformula) -> (r: Result<
        FormulaAndContext,
        RunError,
    >)
        ensures
            r is Err <==> self.step_error(*plot, name@, *step) is Some,
            r matches Err(e) ==> self.step_error(*plot, name@, *step) == Some(e@),
            r matches Ok(fac) ==> self.step_formula_spec(*plot, *step, fac),
    {
        let image = match &step.image {
            Some(i) => i,
            None => match &plot.image {
                Some(i) => i,
                None => {
                    return Err(RunError::SystemSetupCauseless {
                        msg: String::from_str("invalid plot (step '").concat(name).concat(
                            "'): image required",
                        ),
                    });
                },
            },
        };
        assert(chosen_image(plot.image, step.image) == Some(*image));
        let mut inputs: Vec<(SandboxPort, FormulaInput)> = Vec::new();
        let mut i: usize = 0;
        assert(step.inputs@.take(0) =~= seq![]);
        assert(inputs_of(inputs@) =~= seq![]);
        while i < step.inputs.len()
            invariant
                chosen_image(plot.image, step.image) is Some,
                i <= step.inputs@.len(),
                lower_step_inputs(self.temp(), step.inputs@.take(i as int)) == Ok::<_, RunErrorView>(
                    inputs_of(inputs@),
                ),
            decreases step.inputs.len() - i,
        {
            assert(step.inputs@.take(i as int + 1).drop_last() =~= step.inputs@.take(i as int));
            assert(step.inputs@.take(i as int + 1).last() == step.inputs@[i as int]);
            match lower_step_input(self.temp_dir.as_str(), &step.inputs[i].1) {
                Err(e) => {
                    proof {
                        lemma_step_inputs_fail_on_prefix(self.temp(), step.inputs@, i as int + 1);
                    }
                    return Err(e);
                },
                Ok(input) => {
                    let ghost in0 = inputs@;
                    let e = (SandboxPort(String::from_str(step.inputs[i].0.0.as_str())), input);
                    inputs.push(e);
                    assert(inputs@ == in0.push(e));
                    assert(inputs_of(inputs@) =~= inputs_of(in0).push(
                        (step.inputs@[i as int].0.0@, input@),
                    ));
                },
            }
            i = i + 1;
        }
        assert(step.inputs@.take(i as int) =~= step.inputs@);
        let mut k: usize = 0;
        while k < step.outputs.len()
            invariant
                chosen_image(plot.image, step.image) is Some,
                lower_step_inputs(self.temp(), step.inputs@) == Ok::<_, RunErrorView>(inputs_of(inputs@)),
                k <= step.outputs@.len(),
                forall|j: int| 0 <= j < k ==> !packs(#[trigger] step.outputs@[j].1),
            decreases step.outputs.len() - k,
        {
            if directive_packs(&step.outputs[k].1) {
                assert(packs(step.outputs@[k as int].1));
                return Err(RunError::SystemSetupCauseless {
                    msg: String::from_str("invalid plot (step '").concat(name).concat(
                        "'): output packtype has to be 'none'",
                    ),
                });
            }
            k = k + 1;
        }
        let formula = Formula {
            image: Image { reference: String::from_str(image.reference.as_str()), readonly: image.readonly },
            inputs,
            action: copy_action(&step.action),
            outputs: copy_outputs(&step.outputs),
        };
        Ok(FormulaAndContext {
            formula: FormulaCapsule::V1(formula),
            context: FormulaContextCapsule::V1(FormulaContext { warehouses: Vec::new() }),
        })
    }

    /// Why the formula of a step cannot be built, if it cannot: no image,
    /// then the first input that fails, then a pack format other than `none`.
    pub open spec fn step_error(&self, plot: Plot, name: Seq<char>, step: Protoformula) -> Option<RunErrorView> {
        if chosen_image(plot.image, step.image) is None {
            Some(causeless(image_required_msg(name)))
        } else if lower_step_inputs(self.temp(), step.inputs@) is Err {
            Some(lower_step_inputs(self.temp(), step.inputs@)->Err_0)
        } else if exists|k: int| 0 <= k < step.outputs@.len() && packs(#[trigger] step.outputs@[k].1) {
            Some(causeless(packtype_msg(name)))
        } else {
            None
        }
    }

    /// What a step's formula holds when it could be built.
    pub open spec fn step_formula_spec(&self, plot: Plot, step: Protoformula, fac: FormulaAndContext) -> bool {
        let f = fac.formula->V1_0;
        let image = chosen_image(plot.image, step.image)->Some_0;
        &&& chosen_image(plot.image, step.image) is Some
        &&& f.image.reference@ == image.reference@
        &&& f.image.readonly == image.readonly
        &&& lower_step_inputs(self.temp(), step.inputs@) == Ok::<_, RunErrorView>(inputs_of(f.inputs@))
        &&& same_action(f.action, step.action)
        &&& outputs_view(f.outputs@) == outputs_view(step.outputs@)
        &&& forall|k: int| 0 <= k < step.outputs@.len() ==> !packs(#[trigger] step.outputs@[k].1)
        &&& fac.context->V1_0.warehouses@.len() == 0
    }
}

/// Once a prefix of the step inputs fails, all of them fail the same way.
proof fn lemma_step_inputs_fail_on_prefix(temp: Seq<char>, inputs: Seq<(SandboxPort, PlotInput)>, k: int)
    requires
        0 <= k <= inputs.len(),
        lower_step_inputs(temp, inputs.take(k)) is Err,
    ensures
        lower_step_inputs(temp, inputs) == lower_step_inputs(temp, inputs.take(k)),
    decreases inputs.len() - k,
{
    if k < inputs.len() {
        assert(inputs.take(k + 1).drop_last() =~= inputs.take(k));
        lemma_step_inputs_fail_on_prefix(temp, inputs, k + 1);
    } else {
        assert(inputs.take(k) =~= inputs);
    }
}

/// The log of a finished step: a line naming it, then one line per output.
pub open spec fn step_log(step: Seq<char>, outputs: Seq<Output>) -> Seq<Seq<char>> {
    seq![step_line(step)] + outputs.map_values(|o: Output| output_line(o.name@, o.digest@))
}

/// The lines logged when step `name` has finished with `outputs`.
pub fn step_log_lines(name: &str, outputs: &Vec<Output>) -> (r: Vec<String>)
    ensures
        strings_view(r@) == step_log(name@, outputs@),
{
    let mut r: Vec<String> = Vec::new();
    r.push(String::from_str("step '").concat(name).concat("'"));
    let mut i: usize = 0;
    while i < outputs.len()
        invariant
            i <= outputs@.len(),
            strings_view(r@) == step_log(name@, outputs@.take(i as int)),
        decreases outputs.len() - i,
    {
        let ghost r0 = r@;
        let line = String::from_str("  sha384:").concat(outputs[i].digest.as_str()).concat(" ").concat(
            outputs[i].name.as_str(),
        );
        r.push(line);
        assert(r@ == r0.push(line));
        assert(strings_view(r0).len() == i + 1);
        assert(step_log(name@, outputs@.take(i as int + 1)).len() == i + 2);
        assert(step_log(name@, outputs@.take(i as int + 1))[i + 1] == output_line(
            outputs@[i as int].name@,
            outputs@[i as int].digest@,
        ));
        assert forall|j: int| 0 <= j < i + 1 implies step_log(name@, outputs@.take(i as int + 1))[j]
            == step_log(name@, outputs@.take(i as int))[j] by {
            if j > 0 {
                assert(outputs@.take(i as int + 1)[j - 1] == outputs@.take(i as int)[j - 1]);
            }
        }
        assert forall|j: int| 0 <= j < i + 2 implies strings_view(r@)[j] == step_log(
            name@,
            outputs@.take(i as int + 1),
        )[j] by {
            if j < i + 1 {
                assert(strings_view(r@)[j] == strings_view(r0)[j]);
            } else {
                assert(strings_view(r@)[j] == line@);
            }
        }
        assert(strings_view(r@) =~= step_log(name@, outputs@.take(i as int + 1)));
        i = i + 1;
    }
    assert(outputs@.take(i as int) =~= outputs@);
    r
}

/// The error of a step that failed with `cause`, which is kept whole as
/// text.
pub fn step_failure(name: &str, cause: &RunError) -> (r: RunError)
    ensures
        r@ == (RunErrorView::SystemRuntimeError { msg: failed_step_msg(name@), cause: cause@.text() }),
{
    RunError::SystemRuntimeError {
        msg: String::from_str("failed step '").concat(name).concat("'"),
        cause: cause.render(),
    }
}

/// An output of the plot: its label and the host path it is gathered at.
pub open spec fn plot_output_view(temp: Seq<char>, o: (LocalLabel, PlotOutput)) -> (Seq<char>, Seq<char>) {
    match o.1 {
        PlotOutput::Pipe(p) => (o.0.0@, output_path(temp, p.step_name@, p.label.0@)),
    }
}

impl PlotExecutor {
    /// The outputs of the plot to pack as tar, in the order of the plot,
    /// each at the output directory of the step it pipes from.
    pub fn outputs_to_pack(&self, plot: &Plot) -> (r: Vec<IntermediateOutput>)
        ensures
            r@.len() == plot.outputs@.len(),
            forall|i: int|
                0 <= i < r@.len() ==> ((#[trigger] r@[i]).name@, r@[i].host_path@)
                    == plot_output_view(self.temp(), plot.outputs@[i]) && r@[i].packtype
                    == OutputPacktype::Tar,
    {
        let mut r: Vec<IntermediateOutput> = Vec::new();
        let mut i: usize = 0;
        while i < plot.outputs.len()
            invariant
                i <= plot.outputs@.len(),
                r@.len() == i,
                forall|j: int|
                    0 <= j < i ==> ((#[trigger] r@[j]).name@, r@[j].host_path@) == plot_output_view(
                        self.temp(),
                        plot.outputs@[j],
                    ) && r@[j].packtype == OutputPacktype::Tar,
            decreases plot.outputs.len() - i,
        {
            let PlotOutput::Pipe(pipe) = &plot.outputs[i].1;
            let step_dir = join_path(self.temp_dir.as_str(), pipe.step_name.as_str());
            let outputs = join_path(step_dir.as_str(), "outputs");
            let host_path = join_path(outputs.as_str(), pipe.label.0.as_str());
            r.push(IntermediateOutput {
                name: String::from_str(plot.outputs[i].0.0.as_str()),
                host_path,
                packtype: OutputPacktype::Tar,
            });
            i = i + 1;
        }
        r
    }

    /// Builds the formula of a step of the plot; a nested plot is refused.
    pub fn run_step(&self, plot: &Plot, name: &str, step: &Step) -> (r: Result<FormulaAndContext, RunError>)
        ensures
            step is Plot ==> r is Err,
            step matches Step::Protoformula(pf) ==> (r is Err <==> self.step_error(*plot, name@, *pf) is Some),
            step matches Step::Protoformula(pf) ==> (r matches Err(e) ==> self.step_error(*plot, name@, *pf) == Some(e@)),
            step matches Step::Protoformula(pf) ==> (r matches Ok(fac) ==> self.step_formula_spec(*plot, *pf, fac)),
    {
        match step {
            Step::Plot(_) => Err(RunError::Unimplemented { msg: String::from_str("nested plots are not implemented") }),
            Step::Protoformula(pf) => self.step_formula(plot, name, pf),
        }
    }
}

} // verus!
