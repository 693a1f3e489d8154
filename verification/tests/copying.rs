//! Copying a file, with everything that may go wrong on the way.
use filesync_notes::atomic_copy::{
    ensure_parent_dir, format_copy_fallback_error, format_io_error, temp_file_name, CopyAction,
    CopyEvent, CopyRun, IoFailure,
};

const HINT: &str =
    "\n可能原因：目标文件是只读的、正在被 Unreal Editor / 编辑器占用，或当前程序没有写入权限。";

fn fail(text: &str, os_code: Option<i32>) -> IoFailure {
    IoFailure { text: text.to_string(), os_code }
}

fn start(parent: Option<&str>) -> CopyRun {
    CopyRun::new(
        "/s".to_string(),
        "/d/t".to_string(),
        "/d/tmp".to_string(),
        parent.map(|p| p.to_string()),
    )
}

/// Runs a copy whose steps are answered in order, and gives its steps and its end.
fn run(answers: Vec<CopyEvent>) -> (Vec<String>, Option<Result<(), String>>) {
    let mut copy = start(Some("/d"));
    let mut steps = Vec::new();
    let mut event = CopyEvent::Begin;
    let mut answers = answers.into_iter();
    loop {
        assert!(copy.accepts(&event));
        let action = copy.copy_file_atomic(event);
        if let CopyAction::Finish(result) = action {
            return (steps, Some(result));
        }
        steps.push(format!("{action:?}"));
        event = match answers.next() {
            Some(event) => event,
            None => return (steps, None),
        };
    }
}

fn written() -> Vec<CopyEvent> {
    (0..5).map(|_| CopyEvent::Done).collect()
}

#[test]
fn copy_takes_the_short_way_where_nothing_stands_in_it() {
    let mut answers = written();
    answers.extend([CopyEvent::Exists(false), CopyEvent::Done, CopyEvent::Done, CopyEvent::Done]);
    let (steps, end) = run(answers);
    assert_eq!(
        steps,
        [
            "CreateParent", "OpenSource", "CreateTemp", "WriteTemp", "FlushTemp", "ProbeTarget",
            "RenameTemp", "ReadModified", "WriteModified",
        ]
    );
    assert_eq!(end, Some(Ok(())));
}

#[test]
fn read_only_target_does_not_stop_the_first_move() {
    let mut answers = written();
    answers.extend([
        CopyEvent::Exists(true),
        CopyEvent::Failed(fail("locked", Some(5))),
        CopyEvent::Done,
        CopyEvent::Done,
        CopyEvent::Done,
    ]);
    let (steps, end) = run(answers);
    assert_eq!(steps[6..8], ["ClearReadonly", "RenameTemp"]);
    assert_eq!(end, Some(Ok(())));
}

#[test]
fn copy_removes_the_old_file_where_the_move_fails() {
    let mut answers = written();
    answers.extend([
        CopyEvent::Exists(false),
        CopyEvent::Failed(fail("first", None)),
        CopyEvent::Exists(true),
        CopyEvent::Done,
        CopyEvent::Done,
        CopyEvent::Done,
        CopyEvent::Done,
        CopyEvent::Done,
    ]);
    let (steps, end) = run(answers);
    assert_eq!(
        steps[6..],
        ["RenameTemp", "ProbeTarget", "ClearReadonly", "RemoveTarget", "RenameTemp", "ReadModified", "WriteModified"]
    );
    assert_eq!(end, Some(Ok(())));
}

#[test]
fn copy_falls_back_and_reports_all_failures() {
    let mut answers = written();
    answers.extend([
        CopyEvent::Exists(false),
        CopyEvent::Failed(fail("first", None)),
        CopyEvent::Exists(false),
        CopyEvent::Failed(fail("second", Some(5))),
        CopyEvent::Failed(fail("still locked", None)),
        CopyEvent::Failed(fail("third", None)),
    ]);
    let (steps, end) = run(answers);
    assert_eq!(steps[6..], ["RenameTemp", "ProbeTarget", "RenameTemp", "ClearReadonly", "CopyTemp"]);
    assert_eq!(
        end.unwrap().unwrap_err(),
        format!("写入目标文件失败：/d/t\n首次替换失败：first\n二次替换失败：second\n最终复制失败：third{HINT}")
    );
}

#[test]
fn copied_over_file_leaves_nothing_aside() {
    let mut answers = written();
    answers.extend([
        CopyEvent::Exists(false),
        CopyEvent::Failed(fail("first", None)),
        CopyEvent::Exists(false),
        CopyEvent::Failed(fail("second", None)),
        CopyEvent::Done,
        CopyEvent::Done,
        CopyEvent::Done,
        CopyEvent::Done,
        CopyEvent::Done,
    ]);
    let (steps, end) = run(answers);
    assert_eq!(steps[10..], ["CopyTemp", "RemoveTemp", "ReadModified", "WriteModified"]);
    assert_eq!(end, Some(Ok(())));
}

#[test]
fn every_step_that_fails_is_reported() {
    let failing = |before: Vec<CopyEvent>| {
        let mut answers = before;
        answers.push(CopyEvent::Failed(fail("no", None)));
        run(answers).1.unwrap().unwrap_err()
    };
    let done = |n: usize| (0..n).map(|_| CopyEvent::Done).collect::<Vec<_>>();
    assert_eq!(failing(done(0)), "创建目标目录失败：/d\nno");
    assert_eq!(failing(done(1)), "读取源文件失败：/s\nno");
    assert_eq!(failing(done(2)), "创建临时文件失败：/d/tmp\nno");
    assert_eq!(failing(done(3)), "写入临时文件失败：/d/tmp\nno");
    assert_eq!(failing(done(4)), "刷新临时文件失败：/d/tmp\nno");
    let moved = || {
        let mut answers = done(5);
        answers.extend([CopyEvent::Exists(false), CopyEvent::Done]);
        answers
    };
    assert_eq!(failing(moved()), "读取源文件时间失败：/s\nno");
    let mut timed = moved();
    timed.push(CopyEvent::Done);
    assert_eq!(failing(timed), "写入目标文件时间失败：/d/t\nno");
    let stuck = || {
        let mut answers = done(5);
        answers.extend([
            CopyEvent::Exists(false),
            CopyEvent::Failed(fail("first", None)),
            CopyEvent::Exists(true),
        ]);
        answers
    };
    assert_eq!(failing(stuck()), "移除只读属性失败：/d/t\nno");
    let mut unlocked = stuck();
    unlocked.push(CopyEvent::Done);
    assert_eq!(failing(unlocked), "删除旧目标文件失败：/d/t\nno");
    let mut copied = done(5);
    copied.extend([
        CopyEvent::Exists(false),
        CopyEvent::Failed(fail("first", None)),
        CopyEvent::Exists(false),
        CopyEvent::Failed(fail("second", None)),
        CopyEvent::Done,
        CopyEvent::Done,
    ]);
    assert_eq!(failing(copied), "清理临时文件失败：/d/tmp\nno");
}

#[test]
fn target_without_a_folder_is_refused() {
    let mut copy = start(None);
    match copy.copy_file_atomic(CopyEvent::Begin) {
        CopyAction::Finish(Err(message)) => assert_eq!(message, "目标路径缺少父目录。"),
        other => panic!("{other:?}"),
    }
    assert!(!copy.accepts(&CopyEvent::Done));
    assert_eq!(ensure_parent_dir(&None, &None).unwrap_err(), "目标路径缺少父目录。");
    let parent = Some("/d".to_string());
    assert!(ensure_parent_dir(&parent, &None).is_ok());
    assert_eq!(
        ensure_parent_dir(&parent, &Some(fail("no", None))).unwrap_err(),
        "创建目标目录失败：/d\nno"
    );
}

#[test]
fn denied_access_comes_with_a_hint() {
    assert_eq!(format_io_error("a", "p", &fail("e", Some(5))), format!("a：p\ne{HINT}"));
    assert_eq!(format_io_error("a", "p", &fail("e", Some(2))), "a：p\ne");
    let plain = fail("x", None);
    let denied = fail("y", Some(5));
    for (a, b, c) in [(&denied, &plain, &plain), (&plain, &denied, &plain), (&plain, &plain, &denied)] {
        assert!(format_copy_fallback_error("t", a, b, c).ends_with(HINT));
    }
    assert!(!format_copy_fallback_error("t", &plain, &plain, &plain).ends_with(HINT));
}

#[test]
fn file_written_aside_is_hidden() {
    assert_eq!(temp_file_name(Some("README"), "id"), ".README.id.filesync.tmp");
    assert_eq!(temp_file_name(None, "id"), ".temp.id.filesync.tmp");
}
