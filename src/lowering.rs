//! Lowering of formula inputs into bind mounts and environment variables.

use vstd::prelude::*;
use vstd::string::*;

use crate::error::{RunError, RunErrorView};
use indexmap::IndexMap;

use crate::model::{FormulaInput, FormulaInputView, Mount, MountView, SandboxPort};
use crate::ordered::{
    env_entries, env_insert, map_insert, mount_entries, mount_insert, new_env_map, new_mount_map,
};

verus! {

#[derive(Clone, Copy, Debug, PartialEq, Eq, Structural)]
pub enum MountKind {
    Bind,
    Overlay,
}

/// A mount of a host path into the sandbox.
#[derive(Clone, Debug, PartialEq, Eq)]
pub struct MountSpec {
    pub host_source: String,
    pub sandbox_target: String,
    pub readonly: bool,
    pub kind: MountKind,
}

pub struct MountSpecView {
    pub host_source: Seq<char>,
    pub sandbox_target: Seq<char>,
    pub readonly: bool,
    pub kind: MountKind,
}

impl View for MountSpec {
    type V = MountSpecView;

    open spec fn view(&self) -> MountSpecView {
        MountSpecView {
            host_source: self.host_source@,
            sandbox_target: self.sandbox_target@,
            readonly: self.readonly,
            kind: self.kind,
        }
    }
}

impl MountSpec {
    /// A bind mount of `host` at `target`.
    pub fn new_bind(host: &str, target: &str, readonly: bool) -> (r: MountSpec)
        ensures
            r@ == bind_view(host@, target@, readonly),
    {
        MountSpec {
            host_source: String::from_str(host),
            sandbox_target: String::from_str(target),
            readonly,
            kind: MountKind::Bind,
        }
    }
}

pub open spec fn bind_view(host: Seq<char>, target: Seq<char>, readonly: bool) -> MountSpecView {
    MountSpecView { host_source: host, sandbox_target: target, readonly, kind: MountKind::Bind }
}

/// What one formula input becomes.
pub enum LoweredView {
    Env { name: Seq<char>, value: Seq<char> },
    Mount { target: Seq<char>, spec: MountSpecView },
}

pub open spec fn causeless(msg: Seq<char>) -> RunErrorView {
    RunErrorView::SystemSetupCauseless { msg }
}

pub open spec fn invalid_port_msg(port: Seq<char>) -> Seq<char> {
    "invalid formula input '"@ + port + "'"@
}

pub open spec fn empty_env_name_msg() -> Seq<char> {
    "environment variable with empty name"@
}

pub open spec fn env_not_literal_msg(name: Seq<char>) -> Seq<char> {
    "value of environment variable '"@ + name + "' has to be literal"@
}

pub open spec fn literal_mount_msg(port: Seq<char>) -> Seq<char> {
    "formula input '"@ + port + "': 'literal' not supported, use 'ware' or 'mount'"@
}

pub open spec fn ware_input_msg(port: Seq<char>) -> Seq<char> {
    "formula input '"@ + port + "': 'ware' inputs are not implemented"@
}

pub open spec fn overlay_input_msg(port: Seq<char>) -> Seq<char> {
    "formula input '"@ + port + "': 'overlay' mounts are not implemented"@
}

/// What the input `input` at `port` lowers to.
pub open spec fn lower_input_spec(port: Seq<char>, input: FormulaInputView) -> Result<
    LoweredView,
    RunErrorView,
> {
    if port.len() > 0 && port[0] == '$' {
        let name = port.skip(1);
        if name.len() == 0 {
            Err(causeless(empty_env_name_msg()))
        } else {
            match input {
                FormulaInputView::Literal(v) => Ok(LoweredView::Env { name, value: v }),
                _ => Err(causeless(env_not_literal_msg(name))),
            }
        }
    } else if port.len() > 0 && port[0] == '/' {
        match input {
            FormulaInputView::Ware(_) => Err(
                RunErrorView::Unimplemented { msg: ware_input_msg(port) },
            ),
            FormulaInputView::Mount(MountView::ReadOnly(h)) => Ok(
                LoweredView::Mount { target: port, spec: bind_view(h, port, true) },
            ),
            FormulaInputView::Mount(MountView::ReadWrite(h)) => Ok(
                LoweredView::Mount { target: port, spec: bind_view(h, port, false) },
            ),
            FormulaInputView::Mount(MountView::Overlay(_)) => Err(
                RunErrorView::Unimplemented { msg: overlay_input_msg(port) },
            ),
            FormulaInputView::Literal(_) => Err(causeless(literal_mount_msg(port))),
        }
    } else {
        Err(causeless(invalid_port_msg(port)))
    }
}

/// An input is accepted exactly when it is a literal for a named environment
/// variable, or a read-only or read-write mount at a sandbox path.
pub proof fn lemma_port_classification(port: Seq<char>, v: FormulaInputView)
    ensures
        lower_input_spec(port, v) is Ok <==> ((port.len() > 1 && port[0] == '$'
            && v is Literal) || (port.len() > 0 && port[0] == '/' && (v matches FormulaInputView::Mount(
            m) && !(m is Overlay)))),
{
}

/// Lowers one input.
pub fn lower_input(port: &SandboxPort, input: &FormulaInput) -> (r: Result<Lowered, RunError>)
    ensures
        r matches Ok(l) ==> lower_input_spec(port.0@, input@) == Ok::<LoweredView, RunErrorView>(l@),
        r matches Err(e) ==> lower_input_spec(port.0@, input@) == Err::<LoweredView, RunErrorView>(e@),
{
    let p = port.0.as_str();
    let n = p.unicode_len();
    let first = if n > 0 { p.get_char(0) } else { ' ' };
    if n > 0 && first == '$' {
        let name = p.substring_char(1, n);
        if n == 1 {
            proof {
                reveal_strlit("environment variable with empty name");
            }
            return Err(RunError::SystemSetupCauseless {
                msg: String::from_str("environment variable with empty name"),
            });
        }
        match input {
            FormulaInput::Literal(v) => Ok(Lowered::Env { name: String::from_str(name), value: v.clone() }),
            _ => Err(RunError::SystemSetupCauseless {
                msg: String::from_str("value of environment variable '").concat(name).concat(
                    "' has to be literal",
                ),
            }),
        }
    } else if n > 0 && first == '/' {
        match input {
            FormulaInput::Ware(_) => Err(RunError::Unimplemented {
                msg: String::from_str("formula input '").concat(p).concat(
                    "': 'ware' inputs are not implemented",
                ),
            }),
            FormulaInput::Mount(Mount::ReadOnly(h)) => Ok(Lowered::Mount {
                target: String::from_str(p),
                spec: MountSpec::new_bind(h.as_str(), p, true),
            }),
            FormulaInput::Mount(Mount::ReadWrite(h)) => Ok(Lowered::Mount {
                target: String::from_str(p),
                spec: MountSpec::new_bind(h.as_str(), p, false),
            }),
            FormulaInput::Mount(Mount::Overlay(_)) => Err(RunError::Unimplemented {
                msg: String::from_str("formula input '").concat(p).concat(
                    "': 'overlay' mounts are not implemented",
                ),
            }),
            FormulaInput::Literal(_) => Err(RunError::SystemSetupCauseless {
                msg: String::from_str("formula input '").concat(p).concat(
                    "': 'literal' not supported, use 'ware' or 'mount'",
                ),
            }),
        }
    } else {
        Err(RunError::SystemSetupCauseless {
            msg: String::from_str("invalid formula input '").concat(p).concat("'"),
        })
    }
}

/// What one formula input becomes, as values.
pub enum Lowered {
    Env { name: String, value: String },
    Mount { target: String, spec: MountSpec },
}

impl View for Lowered {
    type V = LoweredView;

    open spec fn view(&self) -> LoweredView {
        match self {
            Lowered::Env { name, value } => LoweredView::Env { name: name@, value: value@ },
            Lowered::Mount { target, spec } => LoweredView::Mount { target: target@, spec: spec@ },
        }
    }
}

pub open spec fn inputs_view(v: Seq<(SandboxPort, FormulaInput)>) -> Seq<(Seq<char>, FormulaInputView)> {
    v.map_values(|e: (SandboxPort, FormulaInput)| (e.0.0@, e.1@))
}

/// The mounts and environment that a sequence of inputs lowers to, each an
/// ordered mapping filled in the order of the inputs, or the failure of the
/// first input that fails.
pub open spec fn lower_all(inputs: Seq<(Seq<char>, FormulaInputView)>) -> Result<
    (Seq<(Seq<char>, MountSpecView)>, Seq<(Seq<char>, Seq<char>)>),
    RunErrorView,
>
    decreases inputs.len(),
{
    if inputs.len() == 0 {
        Ok((seq![], seq![]))
    } else {
        match lower_all(inputs.drop_last()) {
            Err(e) => Err(e),
            Ok((m, env)) => match lower_input_spec(inputs.last().0, inputs.last().1) {
                Err(e) => Err(e),
                Ok(LoweredView::Env { name, value }) => Ok((m, map_insert(env, name, value))),
                Ok(LoweredView::Mount { target, spec }) => Ok((map_insert(m, target, spec), env)),
            },
        }
    }
}

/// Lowers the inputs of a formula, in order, into mounts keyed by sandbox
/// path and environment variables keyed by name.
pub fn lower_inputs(inputs: &Vec<(SandboxPort, FormulaInput)>) -> (r: Result<
    (IndexMap<String, MountSpec>, IndexMap<String, String>),
    RunError,
>)
    ensures
        r matches Ok((m, env)) ==> lower_all(inputs_view(inputs@)) == Ok::<_, RunErrorView>(
            (mount_entries(m), env_entries(env)),
        ),
        r matches Err(e) ==> lower_all(inputs_view(inputs@)) == Err::<
            (Seq<(Seq<char>, MountSpecView)>, Seq<(Seq<char>, Seq<char>)>),
            RunErrorView,
        >(e@),
{
    let mut mounts = new_mount_map();
    let mut environment = new_env_map();
    let mut i: usize = 0;
    assert(inputs_view(inputs@).take(0) =~= seq![]);
    while i < inputs.len()
        invariant
            i <= inputs@.len(),
            lower_all(inputs_view(inputs@).take(i as int)) == Ok::<_, RunErrorView>(
                (mount_entries(mounts), env_entries(environment)),
            ),
        decreases inputs.len() - i,
    {
        let ghost prefix = inputs_view(inputs@).take(i as int + 1);
        assert(prefix.drop_last() =~= inputs_view(inputs@).take(i as int));
        let lowered = lower_input(&inputs[i].0, &inputs[i].1);
        match lowered {
            Err(e) => {
                proof {
                    lemma_lower_all_fails_on_prefix(inputs_view(inputs@), i as int + 1);
                }
                return Err(e);
            },
            Ok(Lowered::Env { name, value }) => {
                env_insert(&mut environment, name, value);
            },
            Ok(Lowered::Mount { target, spec }) => {
                mount_insert(&mut mounts, target, spec);
            },
        }
        i = i + 1;
    }
    assert(inputs_view(inputs@).take(i as int) =~= inputs_view(inputs@));
    Ok((mounts, environment))
}

/// Once a prefix of the inputs fails, all of them fail the same way.
proof fn lemma_lower_all_fails_on_prefix(inputs: Seq<(Seq<char>, FormulaInputView)>, k: int)
    requires
        0 <= k <= inputs.len(),
        lower_all(inputs.take(k)) is Err,
    ensures
        lower_all(inputs) == lower_all(inputs.take(k)),
    decreases inputs.len() - k,
{
    if k < inputs.len() {
        assert(inputs.take(k + 1).drop_last() =~= inputs.take(k));
        lemma_lower_all_fails_on_prefix(inputs, k + 1);
    } else {
        assert(inputs.take(k) =~= inputs);
    }
}

} // verus!
