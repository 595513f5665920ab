//! The data model of formulae and plots.
//!
//! Ordered mappings are kept as vectors of `(key, value)` pairs in the order
//! of the originating document. Nothing here relies on their keys being
//! unique: where pairs are gathered into a map, a repeated key takes the
//! later value in the place of its first occurrence.

use vstd::prelude::*;

verus! {

/// A name in the sandbox: a mount target when it starts with `/`, an
/// environment variable when it starts with `$`.
#[derive(Clone, Debug, PartialEq, Eq, Hash)]
pub struct SandboxPort(pub String);

/// A content hash of the form `<packtype>:<digest>`.
#[derive(Clone, Debug, PartialEq, Eq, Hash)]
pub struct WareID(pub String);

/// A short tag naming a pack format, such as `tar` or `none`.
#[derive(Clone, Debug, PartialEq, Eq, Hash)]
pub struct Packtype(pub String);

/// A URL-like string naming a source of ware content.
#[derive(Clone, Debug, PartialEq, Eq, Hash)]
pub struct WarehouseAddr(pub String);

/// The name of an output of a formula or a plot.
#[derive(Clone, Debug, PartialEq, Eq, Hash)]
pub struct LocalLabel(pub String);

/// The name of a step of a plot.
#[derive(Clone, Debug, PartialEq, Eq, Hash)]
pub struct StepName(pub String);

#[derive(Clone, Debug, PartialEq, Eq)]
pub enum Mount {
    ReadOnly(String),
    ReadWrite(String),
    Overlay(String),
}

#[derive(Clone, Debug, PartialEq, Eq)]
pub enum FormulaInput {
    Ware(WareID),
    Mount(Mount),
    Literal(String),
}

/// The mathematical value of a [`Mount`].
pub enum MountView {
    ReadOnly(Seq<char>),
    ReadWrite(Seq<char>),
    Overlay(Seq<char>),
}

/// The mathematical value of a [`FormulaInput`].
pub enum FormulaInputView {
    Ware(Seq<char>),
    Mount(MountView),
    Literal(Seq<char>),
}

impl View for Mount {
    type V = MountView;

    open spec fn view(&self) -> MountView {
        match self {
            Mount::ReadOnly(h) => MountView::ReadOnly(h@),
            Mount::ReadWrite(h) => MountView::ReadWrite(h@),
            Mount::Overlay(h) => MountView::Overlay(h@),
        }
    }
}

impl View for FormulaInput {
    type V = FormulaInputView;

    open spec fn view(&self) -> FormulaInputView {
        match self {
            FormulaInput::Ware(w) => FormulaInputView::Ware(w.0@),
            FormulaInput::Mount(m) => FormulaInputView::Mount(m@),
            FormulaInput::Literal(s) => FormulaInputView::Literal(s@),
        }
    }
}

/// Collects the sandbox path `from` as an output.
#[derive(Clone, Debug, PartialEq, Eq)]
pub struct GatherDirective {
    pub from: SandboxPort,
    pub packtype: Option<Packtype>,
}

/// The OCI image a formula runs in.
#[derive(Clone, Debug, PartialEq, Eq)]
pub struct Image {
    /// OCI reference to the image, with registry and repository, and maybe
    /// tag and manifest digest.
    pub reference: String,
    /// Whether the root filesystem is mounted read-only.
    pub readonly: bool,
}

#[derive(Clone, Debug, PartialEq, Eq)]
pub struct ActionExecute {
    pub command: Vec<String>,
    pub network: Option<bool>,
}

#[derive(Clone, Debug, PartialEq, Eq)]
pub struct ActionScript {
    pub interpreter: String,
    pub contents: Vec<String>,
    pub network: Option<bool>,
}

#[derive(Clone, Debug, PartialEq, Eq)]
pub enum Action {
    Echo,
    Execute(ActionExecute),
    Script(ActionScript),
}

#[derive(Clone, Debug, PartialEq, Eq)]
pub struct Formula {
    pub image: Image,
    pub inputs: Vec<(SandboxPort, FormulaInput)>,
    pub action: Action,
    pub outputs: Vec<(LocalLabel, GatherDirective)>,
}

#[derive(Clone, Debug, PartialEq, Eq)]
pub enum FormulaCapsule {
    V1(Formula),
}

#[derive(Clone, Debug, PartialEq, Eq)]
pub struct FormulaContext {
    pub warehouses: Vec<(WareID, WarehouseAddr)>,
}

#[derive(Clone, Debug, PartialEq, Eq)]
pub enum FormulaContextCapsule {
    V1(FormulaContext),
}

#[derive(Clone, Debug, PartialEq, Eq)]
pub struct FormulaAndContext {
    pub formula: FormulaCapsule,
    pub context: FormulaContextCapsule,
}

/// Dataflow from the output `label` of the step `step_name`. An empty
/// `step_name` stands for an input of the plot itself.
#[derive(Clone, Debug, PartialEq, Eq)]
pub struct Pipe {
    pub step_name: String,
    pub label: LocalLabel,
}

/// A reference into a catalog: module, release and item.
#[derive(Clone, Debug, PartialEq, Eq)]
pub struct CatalogRef {
    pub module_name: String,
    pub release_name: String,
    pub item_name: String,
}

#[derive(Clone, Debug, PartialEq, Eq)]
pub enum PlotInput {
    Ware(WareID),
    Mount(Mount),
    Literal(String),
    Pipe(Pipe),
    CatalogRef(CatalogRef),
    Ingest(String),
}

#[derive(Clone, Debug, PartialEq, Eq)]
pub enum PlotOutput {
    Pipe(Pipe),
}

/// A formula-shaped step whose image may be inherited from the plot.
#[derive(Clone, Debug, PartialEq, Eq)]
pub struct Protoformula {
    pub image: Option<Image>,
    pub inputs: Vec<(SandboxPort, PlotInput)>,
    pub action: Action,
    pub outputs: Vec<(LocalLabel, GatherDirective)>,
}

/// A step of a plot. A nested plot is admitted by the model and refused
/// when it is reached during execution.
pub enum Step {
    Protoformula(Protoformula),
    Plot(Box<Plot>),
}

pub struct Plot {
    pub image: Option<Image>,
    pub steps: Vec<(StepName, Step)>,
    pub outputs: Vec<(LocalLabel, PlotOutput)>,
}

pub enum PlotCapsule {
    V1(Plot),
}

/// The step names of a plot, in order.
pub open spec fn step_names(plot: Plot) -> Seq<Seq<char>> {
    plot.steps@.map_values(|e: (StepName, Step)| e.0.0@)
}

} // verus!
