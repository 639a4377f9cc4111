use locker::batch::{upload_result, Action, BatchOp, BatchRun, StepKind};
use locker::error::OpError;
use locker::selection::Selected;
use locker::unit::Unit;
use std::collections::HashMap;

/// Drives a run against an in-memory disk; `fail_delete` names sources
/// whose delete fails.
fn drive(
    run: &mut BatchRun,
    sources: &[&str],
    dest: &str,
    disk: &mut HashMap<String, String>,
    fail_delete: &[&str],
    calls: &mut Vec<(usize, StepKind)>,
) -> Result<(), OpError> {
    loop {
        match run.next_action() {
            Action::Finished(r) => return r,
            Action::Perform { entry, kind } => {
                calls.push((entry, kind));
                let src = sources[entry].to_string();
                let out = match kind {
                    StepKind::Delete => {
                        if fail_delete.contains(&sources[entry]) {
                            Err(OpError::IoError)
                        } else if disk.remove(&src).is_some() {
                            Ok(())
                        } else {
                            Err(OpError::NotFound)
                        }
                    }
                    StepKind::CopyInto => match disk.get(&src).cloned() {
                        Some(body) => {
                            disk.insert(format!("{}/{}", dest, src), body);
                            Ok(())
                        }
                        None => Err(OpError::NotFound),
                    },
                };
                run.report(out);
            }
        }
    }
}

#[test]
fn move_with_failed_delete_keeps_both() {
    let mut disk = HashMap::new();
    disk.insert("x.txt".to_string(), "hello".to_string());
    let mut run = BatchRun::new(BatchOp::Move, 1);
    let mut calls = Vec::new();
    let r = drive(&mut run, &["x.txt"], "dest", &mut disk, &["x.txt"], &mut calls);
    assert_eq!(r, Err(OpError::IoError));
    assert_eq!(calls, vec![(0, StepKind::CopyInto), (0, StepKind::Delete)]);
    assert_eq!(disk.get("x.txt").unwrap(), "hello");
    assert_eq!(disk.get("dest/x.txt").unwrap(), "hello");
}

#[test]
fn remove_stops_at_missing_path() {
    let mut disk = HashMap::new();
    for p in ["a", "b", "d"] {
        disk.insert(p.to_string(), p.to_string());
    }
    let mut run = BatchRun::new(BatchOp::Remove, 4);
    let mut calls = Vec::new();
    let r = drive(&mut run, &["a", "b", "missing", "d"], "", &mut disk, &[], &mut calls);
    assert_eq!(r, Err(OpError::NotFound));
    assert_eq!(calls, vec![(0, StepKind::Delete), (1, StepKind::Delete), (2, StepKind::Delete)]);
    assert!(!disk.contains_key("a"));
    assert!(!disk.contains_key("b"));
    assert!(disk.contains_key("d"));
}

#[test]
fn finished_run_ignores_reports() {
    let mut run = BatchRun::new(BatchOp::Remove, 2);
    run.report(Err(OpError::IoError));
    run.report(Ok(()));
    assert!(matches!(run.next_action(), Action::Finished(Err(OpError::IoError))));
}

#[test]
fn copy_batch_runs_every_source() {
    let mut disk = HashMap::new();
    disk.insert("a".to_string(), "1".to_string());
    disk.insert("b".to_string(), "2".to_string());
    let mut run = BatchRun::new(BatchOp::Copy, 2);
    let mut calls = Vec::new();
    let r = drive(&mut run, &["a", "b"], "d", &mut disk, &[], &mut calls);
    assert_eq!(r, Ok(()));
    assert_eq!(calls, vec![(0, StepKind::CopyInto), (1, StepKind::CopyInto)]);
    assert_eq!(disk.len(), 4);
}

#[test]
fn move_batch_copies_then_deletes_each() {
    let mut disk = HashMap::new();
    disk.insert("a".to_string(), "1".to_string());
    disk.insert("b".to_string(), "2".to_string());
    let mut run = BatchRun::new(BatchOp::Move, 2);
    let mut calls = Vec::new();
    let r = drive(&mut run, &["a", "b"], "d", &mut disk, &[], &mut calls);
    assert_eq!(r, Ok(()));
    assert_eq!(
        calls,
        vec![
            (0, StepKind::CopyInto),
            (0, StepKind::Delete),
            (1, StepKind::CopyInto),
            (1, StepKind::Delete)
        ]
    );
    assert_eq!(disk.len(), 2);
    assert!(disk.contains_key("d/a") && disk.contains_key("d/b"));
}

#[test]
fn empty_batch_finishes_at_once() {
    let run = BatchRun::new(BatchOp::Move, 0);
    assert!(matches!(run.next_action(), Action::Finished(Ok(()))));
}

#[test]
fn transfer_from_paste_becomes_run() {
    let mut s = Selected::new();
    s.toggle_unit_selection(Unit::new("x.txt".to_string(), false));
    assert!(s.cut());
    let t = s.paste("dest".to_string()).unwrap();
    let run = BatchRun::for_transfer(&t);
    assert!(matches!(
        run.next_action(),
        Action::Perform { entry: 0, kind: StepKind::CopyInto }
    ));
}

#[test]
fn upload_reports_first_failure() {
    assert_eq!(upload_result(&vec![Ok(()), Ok(())]), Ok(()));
    assert_eq!(upload_result(&vec![]), Ok(()));
    assert_eq!(
        upload_result(&vec![Ok(()), Err(OpError::IoError), Err(OpError::NotFound)]),
        Err(OpError::IoError)
    );
}
