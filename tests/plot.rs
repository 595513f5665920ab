use warpforge::error::RunError;
use warpforge::graph::PlotGraph;
use warpforge::model::{
    Action, FormulaCapsule, FormulaInput, GatherDirective, Image, LocalLabel, Mount, Packtype,
    Pipe, Plot, PlotInput, PlotOutput, Protoformula, SandboxPort, Step, StepName,
};
use warpforge::plot::{step_failure, step_log_lines, Output, OutputPacktype, PlotExecutor};

fn pipe(from: &str, label: &str) -> PlotInput {
    PlotInput::Pipe(Pipe {
        step_name: from.to_string(),
        label: LocalLabel(label.to_string()),
    })
}

fn image() -> Image {
    Image {
        reference: "docker.io/busybox:latest".to_string(),
        readonly: true,
    }
}

fn step(inputs: Vec<(&str, PlotInput)>) -> Protoformula {
    Protoformula {
        image: None,
        inputs: inputs
            .into_iter()
            .map(|(p, i)| (SandboxPort(p.to_string()), i))
            .collect(),
        action: Action::Echo,
        outputs: vec![],
    }
}

fn plot(image: Option<Image>, steps: Vec<(&str, Protoformula)>) -> Plot {
    Plot {
        image,
        steps: steps
            .into_iter()
            .map(|(n, s)| (StepName(n.to_string()), Step::Protoformula(s)))
            .collect(),
        outputs: vec![],
    }
}

fn causeless_msg(e: RunError) -> String {
    match e {
        RunError::SystemSetupCauseless { msg } => msg,
        other => panic!("unexpected error {:?}", other),
    }
}

fn executor() -> PlotExecutor {
    PlotExecutor {
        temp_dir: "/tmp/plot".to_string(),
    }
}

#[test]
fn cycle_report() {
    let p = plot(
        Some(image()),
        vec![
            ("a", step(vec![("/in", pipe("c", "out"))])),
            ("b", step(vec![("/in", pipe("a", "out"))])),
            ("c", step(vec![("/in", pipe("b", "out"))])),
        ],
    );
    let g = PlotGraph::new(&p);
    assert!(g.validate_dependencies_exist().is_ok());
    let e = g.validate().err().unwrap();
    assert_eq!(
        causeless_msg(e),
        "invalid plot: the step(s) 'a', 'b', 'c' contain(s) cycle(s)"
    );
}

#[test]
fn cycle_report_includes_steps_downstream() {
    let p = plot(
        Some(image()),
        vec![
            ("a", step(vec![("/in", pipe("b", "out"))])),
            ("b", step(vec![("/in", pipe("a", "out"))])),
            ("c", step(vec![("/in", pipe("b", "out"))])),
            ("d", step(vec![])),
        ],
    );
    let e = PlotGraph::new(&p).validate_no_cycles().err().unwrap();
    assert_eq!(
        causeless_msg(e),
        "invalid plot: the step(s) 'a', 'b', 'c' contain(s) cycle(s)"
    );
}

#[test]
fn unknown_pipe_target() {
    let p = plot(
        Some(image()),
        vec![
            ("src", step(vec![("/in", pipe("ghost", "out"))])),
            ("other", step(vec![("/in", pipe("ghost", "x"))])),
        ],
    );
    let e = PlotGraph::new(&p).validate().err().unwrap();
    assert_eq!(
        causeless_msg(e),
        "invalid plot: step(s) 'src', 'other' reference(s) unknown step 'ghost'"
    );
}

#[test]
fn acyclic_plot_orders_parents_first() {
    let p = plot(
        Some(image()),
        vec![
            ("c", step(vec![("/x", pipe("a", "o")), ("/y", pipe("b", "o"))])),
            ("a", step(vec![])),
            ("b", step(vec![("/x", pipe("a", "o")), ("/p", pipe("", "plot-input"))])),
        ],
    );
    let g = PlotGraph::new(&p);
    assert!(g.validate().is_ok());
    let (order, done) = g.ready_order();
    assert!(done.iter().all(|d| *d));
    let names: Vec<&str> = order.iter().map(|i| g.nodes[*i].as_str()).collect();
    assert_eq!(names, vec!["a", "b", "c"]);
    assert_eq!(g.parents.len(), 2);
    assert_eq!(g.children[0].0, "a");
    assert_eq!(g.children[0].1, vec!["c".to_string(), "b".to_string()]);
}

#[test]
fn subplot_is_a_node_without_edges() {
    let mut p = plot(Some(image()), vec![("a", step(vec![]))]);
    p.steps.push((StepName("nested".to_string()), Step::Plot(Box::new(plot(None, vec![])))));
    let g = PlotGraph::new(&p);
    assert_eq!(g.nodes, vec!["a".to_string(), "nested".to_string()]);
    assert!(g.validate().is_ok());
    let r = executor().run_step(&p, "nested", &p.steps[1].1);
    assert!(matches!(r, Err(RunError::Unimplemented { .. })));
}

#[test]
fn missing_image() {
    let s = step(vec![]);
    let p = plot(None, vec![("build", s.clone())]);
    let e = executor().step_formula(&p, "build", &s).err().unwrap();
    assert_eq!(causeless_msg(e), "invalid plot (step 'build'): image required");
}

#[test]
fn step_image_overrides_plot_image() {
    let mut s = step(vec![]);
    s.image = Some(Image {
        reference: "docker.io/alpine:3".to_string(),
        readonly: false,
    });
    let p = plot(Some(image()), vec![("build", s.clone())]);
    let fac = executor().step_formula(&p, "build", &s).unwrap();
    let FormulaCapsule::V1(f) = fac.formula;
    assert_eq!(f.image.reference, "docker.io/alpine:3");
    let s2 = step(vec![]);
    let fac = executor().step_formula(&p, "other", &s2).unwrap();
    let FormulaCapsule::V1(f) = fac.formula;
    assert_eq!(f.image.reference, "docker.io/busybox:latest");
}

#[test]
fn invalid_packtype() {
    let mut s = step(vec![]);
    s.outputs = vec![(
        LocalLabel("out".to_string()),
        GatherDirective {
            from: SandboxPort("/outputs/out".to_string()),
            packtype: Some(Packtype("tar".to_string())),
        },
    )];
    let p = plot(Some(image()), vec![("pack", s.clone())]);
    let e = executor().step_formula(&p, "pack", &s).err().unwrap();
    assert_eq!(
        causeless_msg(e),
        "invalid plot (step 'pack'): output packtype has to be 'none'"
    );
    s.outputs[0].1.packtype = Some(Packtype("none".to_string()));
    assert!(executor().step_formula(&p, "pack", &s).is_ok());
}

#[test]
fn pipes_become_read_only_mounts() {
    let s = step(vec![
        ("/in", pipe("a", "out")),
        ("$V", PlotInput::Literal("v".to_string())),
        ("/m", PlotInput::Mount(Mount::ReadWrite("/h".to_string()))),
    ]);
    let p = plot(Some(image()), vec![("b", s.clone())]);
    let fac = executor().step_formula(&p, "b", &s).unwrap();
    let FormulaCapsule::V1(f) = fac.formula;
    assert_eq!(f.inputs.len(), 3);
    assert_eq!(f.inputs[0].0, SandboxPort("/in".to_string()));
    assert_eq!(
        f.inputs[0].1,
        FormulaInput::Mount(Mount::ReadOnly("/tmp/plot/a/outputs/out".to_string()))
    );
    assert_eq!(f.inputs[1].1, FormulaInput::Literal("v".to_string()));
    assert_eq!(f.inputs[2].1, FormulaInput::Mount(Mount::ReadWrite("/h".to_string())));
    assert_eq!(f.action, Action::Echo);
}

#[test]
fn unsupported_step_inputs() {
    for input in [pipe("", "x"), PlotInput::Ingest("git".to_string())] {
        let s = step(vec![("/in", input)]);
        let p = plot(Some(image()), vec![("b", s.clone())]);
        let r = executor().step_formula(&p, "b", &s);
        assert!(matches!(r, Err(RunError::Unimplemented { .. })));
    }
}

#[test]
fn plot_outputs_in_order() {
    let mut p = plot(Some(image()), vec![("a", step(vec![]))]);
    p.outputs = vec![
        (
            LocalLabel("second".to_string()),
            PlotOutput::Pipe(Pipe { step_name: "b".to_string(), label: LocalLabel("y".to_string()) }),
        ),
        (
            LocalLabel("first".to_string()),
            PlotOutput::Pipe(Pipe { step_name: "a".to_string(), label: LocalLabel("x".to_string()) }),
        ),
    ];
    let out = executor().outputs_to_pack(&p);
    assert_eq!(out.len(), 2);
    assert_eq!(out[0].name, "second");
    assert_eq!(out[0].host_path, "/tmp/plot/b/outputs/y");
    assert_eq!(out[1].host_path, "/tmp/plot/a/outputs/x");
    assert_eq!(out[1].packtype, OutputPacktype::Tar);
}

#[test]
fn step_log_format() {
    let outputs = vec![
        Output { name: "bin".to_string(), digest: "abc".to_string() },
        Output { name: "doc".to_string(), digest: "def".to_string() },
    ];
    assert_eq!(
        step_log_lines("build", &outputs),
        vec!["step 'build'", "  sha384:abc bin", "  sha384:def doc"]
    );
    assert_eq!(step_log_lines("x", &vec![]), vec!["step 'x'"]);
}

#[test]
fn failed_step_wraps_cause() {
    let inner = RunError::SystemRuntimeError {
        msg: "container terminated non-zero exit code".to_string(),
        cause: "7".to_string(),
    };
    match step_failure("build", &inner) {
        RunError::SystemRuntimeError { msg, cause } => {
            assert_eq!(msg, "failed step 'build'");
            assert_eq!(cause, "container terminated non-zero exit code: 7");
        }
        _ => panic!("expected a runtime error"),
    }
}

#[test]
fn same_plot_same_order() {
    let make = || {
        plot(
            Some(image()),
            vec![
                ("d", step(vec![("/x", pipe("b", "o")), ("/y", pipe("c", "o"))])),
                ("b", step(vec![("/x", pipe("a", "o"))])),
                ("c", step(vec![("/x", pipe("a", "o"))])),
                ("a", step(vec![])),
            ],
        )
    };
    let (p1, p2) = (make(), make());
    let (o1, _) = PlotGraph::new(&p1).ready_order();
    let (o2, _) = PlotGraph::new(&p2).ready_order();
    assert_eq!(o1, o2);
    assert_eq!(o1, vec![3, 1, 2, 0]);
}

#[test]
fn step_output_directory() {
    assert_eq!(executor().step_output_path("build"), "/tmp/plot/build/outputs");
    let e = PlotExecutor { temp_dir: "/tmp/plot/".to_string() };
    assert_eq!(e.step_output_path("x"), "/tmp/plot/x/outputs");
}

#[test]
fn missing_dependency_reported_before_cycle() {
    let p = plot(
        Some(image()),
        vec![
            ("a", step(vec![("/in", pipe("b", "out"))])),
            ("b", step(vec![("/in", pipe("a", "out")), ("/g", pipe("ghost", "x"))])),
        ],
    );
    let e = PlotGraph::new(&p).validate().err().unwrap();
    assert_eq!(causeless_msg(e), "invalid plot: step(s) 'b' reference(s) unknown step 'ghost'");
}

#[test]
fn self_pipe_is_a_cycle() {
    let p = plot(Some(image()), vec![("a", step(vec![("/in", pipe("a", "out"))]))]);
    let e = PlotGraph::new(&p).validate().err().unwrap();
    assert_eq!(causeless_msg(e), "invalid plot: the step(s) 'a' contain(s) cycle(s)");
}
