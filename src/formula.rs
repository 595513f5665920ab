//! Turning a formula into the parameters of a container run.

use vstd::prelude::*;
use vstd::string::*;

use crate::error::{RunError, RunErrorView};
use indexmap::IndexMap;

use crate::lowering::{
    bind_view, causeless, inputs_view, lower_all, lower_inputs, MountSpec, MountSpecView,
};
use crate::ordered::{env_entries, map_insert, mount_entries, mount_insert};
use crate::model::{Action, ActionScript, FormulaAndContext, FormulaCapsule, Image};
use crate::text::{
    decimal, decimal_string, join_path, path_join, signed_decimal, signed_decimal_string, text_eq,
};

verus! {

/// Where the scratch files of one formula run live on the host.
#[derive(Clone, Debug, PartialEq, Eq)]
pub struct Executor {
    pub ersatz_dir: String,
    pub log_file: String,
}

/// Prepares formulae for the container runtime.
#[derive(Clone, Debug, PartialEq, Eq)]
pub struct Formula {
    pub executor: Executor,
}

/// Everything the container runtime is given.
#[derive(Debug)]
pub struct ContainerParams {
    pub ident: String,
    pub runtime: String,
    pub command: Vec<String>,
    pub mounts: IndexMap<String, MountSpec>,
    pub environment: IndexMap<String, String>,
    pub root_path: String,
}

/// The files of a script action, to be written on the host before the run:
/// `run` and one entry file per line, each path with its contents.
#[derive(Clone, Debug, PartialEq, Eq)]
pub struct ScriptFiles {
    pub dir: String,
    pub run_path: String,
    pub run_contents: String,
    pub entries: Vec<(String, String)>,
}

/// A formula ready to run: the container parameters, the script files if
/// the action is a script, and the image to unpack into the bundle.
#[derive(Debug)]
pub struct Prepared {
    pub params: ContainerParams,
    pub script: Option<ScriptFiles>,
    pub bundle_path: String,
    pub image: Image,
}

pub open spec fn strings_view(v: Seq<String>) -> Seq<Seq<char>> {
    v.map_values(|s: String| s@)
}

/// The directory inside the sandbox where a script is mounted.
pub open spec fn container_script_dir() -> Seq<char> {
    "/.warpforge.container/script"@
}

pub open spec fn entry_name(n: nat) -> Seq<char> {
    "entry-"@ + decimal(n)
}

/// The line of the `run` file that sources entry `n`.
pub open spec fn entry_line(n: nat) -> Seq<char> {
    ". /.warpforge.container/script/"@ + entry_name(n) + "\n"@
}

/// The text of the `run` file of a script of `k` lines.
pub open spec fn run_text(k: nat) -> Seq<char>
    decreases k,
{
    if k == 0 {
        seq![]
    } else {
        run_text((k - 1) as nat) + entry_line((k - 1) as nat)
    }
}

/// The command of the `Echo` action.
pub open spec fn echo_command() -> Seq<Seq<char>> {
    seq!["echo"@, "what is the \"Echo\" Action for?"@]
}

/// The command that runs a script with `interpreter`.
pub open spec fn script_command(interpreter: Seq<char>) -> Seq<Seq<char>> {
    seq![interpreter, container_script_dir() + "/run"@]
}

fn echo_command_vec() -> (r: Vec<String>)
    ensures
        strings_view(r@) == echo_command(),
{
    let mut r: Vec<String> = Vec::new();
    r.push(String::from_str("echo"));
    r.push(String::from_str("what is the \"Echo\" Action for?"));
    assert(strings_view(r@) =~= echo_command());
    r
}

/// Whether every character is an ASCII letter or digit.
pub open spec fn alphanumeric(s: Seq<char>) -> bool {
    forall|i: int|
        0 <= i < s.len() ==> ('a' <= #[trigger] s[i] <= 'z' || 'A' <= s[i] <= 'Z' || '0' <= s[i]
            <= '9')
}

/// Relies on rand's `Alphanumeric` distribution: `sample_string` appends
/// `len` characters, each drawn from `A-Z`, `a-z` and `0-9`.
#[verifier::external_body]
fn random_alphanumeric(len: usize) -> (r: String)
    ensures
        r@.len() == len,
        alphanumeric(r@),
{
    rand::distributions::DistString::sample_string(
        &rand::distributions::Alphanumeric,
        &mut rand::thread_rng(),
        len,
    )
}

impl Formula {
    /// The directory inside the sandbox where a script is mounted.
    pub fn container_script_path() -> (r: String)
        ensures
            r@ == container_script_dir(),
    {
        String::from_str("/.warpforge.container/script")
    }

    /// The host directory that holds the files of a script.
    pub open spec fn script_dir_spec(&self) -> Seq<char> {
        path_join(self.executor.ersatz_dir@, "script"@)
    }

    /// The files of `script`: `run` sources one entry file per line, in order.
    pub open spec fn script_files_spec(&self, script: &ActionScript, files: ScriptFiles) -> bool {
        &&& files.dir@ == self.script_dir_spec()
        &&& files.run_path@ == path_join(self.script_dir_spec(), "run"@)
        &&& files.run_contents@ == run_text(script.contents@.len())
        &&& files.entries@.len() == script.contents@.len()
        &&& forall|n: int|
            0 <= n < script.contents@.len() ==> (#[trigger] files.entries@[n]).0@ == path_join(
                self.script_dir_spec(),
                entry_name(n as nat),
            ) && files.entries@[n].1@ == script.contents@[n]@ + "\n"@
    }

    /// The read-only mount of the script directory into the sandbox.
    pub open spec fn script_mount_spec(&self) -> MountSpecView {
        bind_view(self.script_dir_spec(), container_script_dir(), true)
    }

    /// Whether `p` is what `fac` prepares to, with the container named after
    /// `suffix`.
    pub open spec fn prepared(
        &self,
        fac: FormulaAndContext,
        runtime: Seq<char>,
        suffix: Seq<char>,
        p: Prepared,
    ) -> bool {
        let f = fac.formula->V1_0;
        let lowered = lower_all(inputs_view(f.inputs@));
        let m = lowered->Ok_0.0;
        &&& lowered is Ok
        &&& p.params.ident@ == "warpforge-"@ + suffix
        &&& p.params.runtime@ == runtime
        &&& p.bundle_path@ == path_join(self.executor.ersatz_dir@, p.params.ident@)
        &&& p.params.root_path@ == path_join(p.bundle_path@, "rootfs"@)
        &&& env_entries(p.params.environment) == lowered->Ok_0.1
        &&& p.image.reference@ == f.image.reference@
        &&& p.image.readonly == f.image.readonly
        &&& match f.action {
            Action::Echo => {
                &&& strings_view(p.params.command@) == echo_command()
                &&& mount_entries(p.params.mounts) == m
                &&& p.script is None
            },
            Action::Execute(a) => {
                &&& strings_view(p.params.command@) == strings_view(a.command@)
                &&& mount_entries(p.params.mounts) == m
                &&& p.script is None
            },
            Action::Script(a) => {
                &&& strings_view(p.params.command@) == script_command(a.interpreter@)
                &&& mount_entries(p.params.mounts) == map_insert(
                    m,
                    container_script_dir(),
                    self.script_mount_spec(),
                )
                &&& p.script matches Some(files) && self.script_files_spec(&a, files)
            },
        }
    }

    /// Prepares a formula to run in a container named `warpforge-<suffix>`:
    /// its inputs become mounts and environment variables, in order, and its
    /// action becomes the command. Fails as the first failing input does.
    pub fn prepare(&self, fac: &FormulaAndContext, runtime: &str, suffix: &str) -> (r: Result<
        Prepared,
        RunError,
    >)
        ensures
            r is Err <==> lower_all(inputs_view(fac.formula->V1_0.inputs@)) is Err,
            r matches Err(e) ==> lower_all(inputs_view(fac.formula->V1_0.inputs@)) == Err::<
                (Seq<(Seq<char>, MountSpecView)>, Seq<(Seq<char>, Seq<char>)>),
                RunErrorView,
            >(e@),
            r matches Ok(p) ==> self.prepared(*fac, runtime@, suffix@, p),
    {
        let FormulaCapsule::V1(f) = &fac.formula;
        let (mut mounts, environment) = match lower_inputs(&f.inputs) {
            Ok(lowered) => lowered,
            Err(e) => return Err(e),
        };
        let mut script: Option<ScriptFiles> = None;
        let command = match &f.action {
            Action::Echo => echo_command_vec(),
            Action::Execute(a) => a.command.clone(),
            Action::Script(a) => {
                let (command, files) = self.setup_script(a, &mut mounts);
                script = Some(files);
                command
            },
        };
        let ident = String::from_str("warpforge-").concat(suffix);
        let bundle_path = join_path(self.executor.ersatz_dir.as_str(), ident.as_str());
        let root_path = join_path(bundle_path.as_str(), "rootfs");
        let image = Image { reference: f.image.reference.clone(), readonly: f.image.readonly };
        let params = ContainerParams {
            ident,
            runtime: String::from_str(runtime),
            command,
            mounts,
            environment,
            root_path,
        };
        Ok(Prepared { params, script, bundle_path, image })
    }

    /// Prepares a formula as [`Formula::prepare`] does, naming the container
    /// with a fresh random suffix of sixteen letters and digits.
    pub fn plan(&self, fac: &FormulaAndContext, runtime: &str) -> (r: Result<Prepared, RunError>)
        ensures
            r is Err <==> lower_all(inputs_view(fac.formula->V1_0.inputs@)) is Err,
            r matches Err(e) ==> lower_all(inputs_view(fac.formula->V1_0.inputs@)) == Err::<
                (Seq<(Seq<char>, MountSpecView)>, Seq<(Seq<char>, Seq<char>)>),
                RunErrorView,
            >(e@),
            r matches Ok(p) ==> exists|suffix: Seq<char>|
                suffix.len() == 16 && alphanumeric(suffix) && #[trigger] self.prepared(
                    *fac,
                    runtime@,
                    suffix,
                    p,
                ),
    {
        let suffix = random_alphanumeric(16);
        self.prepare(fac, runtime, suffix.as_str())
    }

    /// Lays out a script action: one entry file per line of `script`, a
    /// `run` file that sources them in order, and a read-only mount of
    /// their directory at the container's script path. Returns the command
    /// that runs the script, and the files to write.
    pub fn setup_script(&self, script: &ActionScript, mounts: &mut IndexMap<String, MountSpec>) -> (r: (
        Vec<String>,
        ScriptFiles,
    ))
        ensures
            strings_view(r.0@) == script_command(script.interpreter@),
            self.script_files_spec(script, r.1),
            mount_entries(*final(mounts)) == map_insert(
                mount_entries(*old(mounts)),
                container_script_dir(),
                self.script_mount_spec(),
            ),
    {
        let dir = join_path(self.executor.ersatz_dir.as_str(), "script");
        let mut run = String::new();
        let mut entries: Vec<(String, String)> = Vec::new();
        let mut n: usize = 0;
        while n < script.contents.len()
            invariant
                n <= script.contents@.len(),
                dir@ == self.script_dir_spec(),
                run@ == run_text(n as nat),
                entries@.len() == n,
                forall|j: int|
                    0 <= j < n ==> (#[trigger] entries@[j]).0@ == path_join(
                        self.script_dir_spec(),
                        entry_name(j as nat),
                    ) && entries@[j].1@ == script.contents@[j]@ + "\n"@,
            decreases script.contents.len() - n,
        {
            let name = String::from_str("entry-").concat(decimal_string(n as u64).as_str());
            let path = join_path(dir.as_str(), name.as_str());
            let contents = script.contents[n].clone().concat("\n");
            entries.push((path, contents));
            run.append(". /.warpforge.container/script/");
            run.append(name.as_str());
            run.append("\n");
            assert(run@ =~= run_text((n + 1) as nat));
            n = n + 1;
        }
        let target = Formula::container_script_path();
        let spec = MountSpec::new_bind(dir.as_str(), target.as_str(), true);
        mount_insert(mounts, target, spec);
        let run_path = join_path(dir.as_str(), "run");
        let mut command: Vec<String> = Vec::new();
        command.push(script.interpreter.clone());
        command.push(Formula::container_script_path().concat("/run"));
        assert(strings_view(command@) =~= script_command(script.interpreter@));
        (command, ScriptFiles { dir, run_path, run_contents: run, entries })
    }
}

pub open spec fn exit_code_text(code: Option<i32>) -> Seq<char> {
    match code {
        Some(c) => signed_decimal(c as int),
        None => "None"@,
    }
}

/// The outcome of a container run that ended with `code`: success exactly
/// for `Some(0)`.
pub fn exit_status(code: Option<i32>) -> (r: Result<(), RunError>)
    ensures
        r is Ok <==> code == Some(0i32),
        r matches Err(e) ==> e@ == (RunErrorView::SystemRuntimeError {
            msg: "container terminated non-zero exit code"@,
            cause: exit_code_text(code),
        }),
{
    let cause = match code {
        Some(0) => return Ok(()),
        Some(c) => signed_decimal_string(c),
        None => String::from_str("None"),
    };
    Err(RunError::SystemRuntimeError {
        msg: String::from_str("container terminated non-zero exit code"),
        cause,
    })
}

/// The error when the event consumer of a run could not be joined.
pub fn event_pipeline_failure(cause: &str) -> (r: RunError)
    ensures
        r@ == (RunErrorView::SystemRuntimeError {
            msg: "unexpected error while running container"@,
            cause: cause@,
        }),
{
    RunError::SystemRuntimeError {
        msg: String::from_str("unexpected error while running container"),
        cause: String::from_str(cause),
    }
}

/// The error when the script directory is already there: the sandbox must
/// not see a directory that was seeded before.
pub fn script_dir_exists() -> (r: RunError)
    ensures
        r@ == causeless("script directory already existed when trying to setup script"@),
{
    RunError::SystemSetupCauseless {
        msg: String::from_str("script directory already existed when trying to setup script"),
    }
}

/// The error when the script directory cannot be made: a setup error when
/// permission was denied, a runtime error otherwise.
pub fn script_dir_failure(permission_denied: bool, cause: &str) -> (r: RunError)
    ensures
        permission_denied ==> r@ == (RunErrorView::SystemSetupError {
            msg: "failed during formula execution: couldn't create script dir"@,
            cause: cause@,
        }),
        !permission_denied ==> r@ == (RunErrorView::SystemRuntimeError {
            msg: "failed during formula execution: couldn't create script dir"@,
            cause: cause@,
        }),
{
    let msg = String::from_str("failed during formula execution: couldn't create script dir");
    if permission_denied {
        RunError::SystemSetupError { msg, cause: String::from_str(cause) }
    } else {
        RunError::SystemRuntimeError { msg, cause: String::from_str(cause) }
    }
}

/// The error when the `run` file of a script cannot be created.
pub fn script_run_failure(cause: &str) -> (r: RunError)
    ensures
        r@ == (RunErrorView::Catchall {
            msg: "failed during formula execution: couldn't open script file for writing"@,
            cause: cause@,
        }),
{
    RunError::Catchall {
        msg: String::from_str("failed during formula execution: couldn't open script file for writing"),
        cause: String::from_str(cause),
    }
}

/// The error when entry file `n` of a script cannot be written.
pub fn script_entry_failure(n: u64, cause: &str) -> (r: RunError)
    ensures
        r@ == (RunErrorView::Catchall {
            msg: "failed during formula execution: couldn't create script entry number "@ + decimal(
                n as nat,
            ),
            cause: cause@,
        }),
{
    RunError::Catchall {
        msg: String::from_str("failed during formula execution: couldn't create script entry number ").concat(
            decimal_string(n).as_str(),
        ),
        cause: String::from_str(cause),
    }
}

/// The sandbox path where a step's outputs are gathered.
pub open spec fn sandbox_outputs_dir() -> Seq<char> {
    "/outputs"@
}

impl ContainerParams {
    /// Mounts the host directory `host` read-write at `/outputs`, where
    /// the container leaves its outputs.
    pub fn mount_outputs(&mut self, host: &str)
        ensures
            mount_entries(final(self).mounts) == map_insert(
                mount_entries(old(self).mounts),
                sandbox_outputs_dir(),
                bind_view(host@, sandbox_outputs_dir(), false),
            ),
            final(self).ident == old(self).ident,
            final(self).runtime == old(self).runtime,
            final(self).command == old(self).command,
            final(self).environment == old(self).environment,
            final(self).root_path == old(self).root_path,
    {
        let target = String::from_str("/outputs");
        let spec = MountSpec::new_bind(host, "/outputs", false);
        mount_insert(&mut self.mounts, target, spec);
    }
}

} // verus!
