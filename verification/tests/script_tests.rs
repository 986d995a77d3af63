use consolevault::install::InstallOp;
use consolevault::script::{after_step, first_step, Next, StepReport};

fn run(program: &str, failure: &str) -> InstallOp {
    InstallOp::Run { program: program.to_string(), args: vec![], cwd: None, failure: failure.to_string() }
}

/// Drive a script, answering each performed step with the report the closure
/// gives; returns the performed positions and the result.
fn drive(ops: &Vec<InstallOp>, report: impl Fn(usize) -> StepReport) -> (Vec<usize>, Result<(), String>) {
    let mut performed = Vec::new();
    let mut next = first_step(ops);
    loop {
        match next {
            Next::Finish(r) => return (performed, r),
            Next::Perform(i) => {
                performed.push(i);
                next = after_step(ops, i, &report(i));
            }
        }
    }
}

fn script() -> Vec<InstallOp> {
    vec![
        InstallOp::Emit("== start ==".to_string()),
        run("git", "git clone failed"),
        InstallOp::ResetBuildDir("/c/build/snes".to_string()),
        run("cmake", "build step failed: cmake"),
        InstallOp::RemoveBuildDir("/c/build/snes".to_string()),
    ]
}

#[test]
fn script_succeeds_when_every_step_succeeds() {
    let (performed, r) = drive(&script(), |_| StepReport::Succeeded);
    assert_eq!(performed, vec![0, 1, 2, 3, 4]);
    assert_eq!(r, Ok(()));
}

#[test]
fn script_stops_at_nonzero_exit() {
    let (performed, r) = drive(&script(), |i| if i == 1 { StepReport::ExitedNonZero } else { StepReport::Succeeded });
    assert_eq!(performed, vec![0, 1]);
    assert_eq!(r, Err("git clone failed".to_string()));
}

#[test]
fn script_reports_process_errors() {
    let (performed, r) =
        drive(&script(), |i| if i == 3 { StepReport::StartFailed("No such file".to_string()) } else { StepReport::Succeeded });
    assert_eq!(performed, vec![0, 1, 2, 3]);
    assert_eq!(r, Err("failed to start process: No such file".to_string()));
    let (_, r) = drive(&script(), |i| if i == 1 { StepReport::WaitFailed("interrupted".to_string()) } else { StepReport::Succeeded });
    assert_eq!(r, Err("process wait failed: interrupted".to_string()));
}

#[test]
fn script_reports_directory_errors() {
    let (performed, r) = drive(&script(), |i| if i == 2 { StepReport::IoFailed("denied".to_string()) } else { StepReport::Succeeded });
    assert_eq!(performed, vec![0, 1, 2]);
    assert_eq!(r, Err("mkdir build dir: denied".to_string()));
    let (_, r) = drive(&script(), |i| if i == 4 { StepReport::IoFailed("busy".to_string()) } else { StepReport::Succeeded });
    assert_eq!(r, Err("failed to remove build cache: busy".to_string()));
}

#[test]
fn script_fail_step_is_not_performed() {
    let ops = vec![InstallOp::Emit("x".to_string()), InstallOp::Fail("no pacman package".to_string()), run("a", "b")];
    let (performed, r) = drive(&ops, |_| StepReport::Succeeded);
    assert_eq!(performed, vec![0]);
    assert_eq!(r, Err("no pacman package".to_string()));
}

#[test]
fn empty_script_succeeds() {
    let (performed, r) = drive(&vec![], |_| StepReport::Succeeded);
    assert!(performed.is_empty());
    assert_eq!(r, Ok(()));
}
