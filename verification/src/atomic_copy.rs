//! How one file is put in the place of another: written aside first, then
//! moved over the old one, as a machine that asks for one step at a time.
use vstd::prelude::*;
use vstd::string::*;

verus! {

broadcast use vstd::string::group_string_axioms;

/// An operation on a file that failed: what the system says, and its number.
#[derive(Debug)]
pub struct IoFailure {
    pub text: String,
    pub os_code: Option<i32>,
}

pub struct FailureView {
    pub text: Seq<char>,
    pub os_code: Option<i32>,
}

impl View for IoFailure {
    type V = FailureView;

    open spec fn view(&self) -> FailureView {
        FailureView { text: self.text@, os_code: self.os_code }
    }
}

/// The number under which a system reports that access is denied.
pub const ACCESS_DENIED: i32 = 5;

pub open spec fn is_denied(failure: FailureView) -> bool {
    failure.os_code == Some(ACCESS_DENIED)
}

/// What may be the matter where access is denied.
pub open spec fn access_hint() -> Seq<char> {
    "\n可能原因：目标文件是只读的、正在被 Unreal Editor / 编辑器占用，或当前程序没有写入权限。"@
}

/// What is reported of a failure: what was to be done, where, what the system
/// says, and a hint where access was denied.
pub open spec fn io_error_text(action: Seq<char>, path: Seq<char>, failure: FailureView) -> Seq<char> {
    let message = action + "："@ + path + "\n"@ + failure.text;
    if is_denied(failure) {
        message + access_hint()
    } else {
        message
    }
}

fn denied(failure: &IoFailure) -> (r: bool)
    ensures
        r == is_denied(failure@),
{
    match failure.os_code {
        Some(code) => code == ACCESS_DENIED,
        None => false,
    }
}

/// The report on an operation that failed.
pub fn format_io_error(action: &str, path: &str, failure: &IoFailure) -> (r: String)
    ensures
        r@ == io_error_text(action@, path@, failure@),
{
    let mut message = String::from_str(action);
    message.append("：");
    message.append(path);
    message.append("\n");
    message.append(failure.text.as_str());
    if denied(failure) {
        message.append(
            "\n可能原因：目标文件是只读的、正在被 Unreal Editor / 编辑器占用，或当前程序没有写入权限。",
        );
    }
    message
}

pub open spec fn copy_fallback_text(
    target: Seq<char>,
    first: FailureView,
    second: FailureView,
    copy: FailureView,
) -> Seq<char> {
    let message = "写入目标文件失败："@ + target + "\n首次替换失败："@ + first.text
        + "\n二次替换失败："@ + second.text + "\n最终复制失败："@ + copy.text;
    if is_denied(copy) || is_denied(first) || is_denied(second) {
        message + access_hint()
    } else {
        message
    }
}

/// The report on a file that could be moved into its place neither at once nor
/// after the old file was removed, and could not be copied there either.
pub fn format_copy_fallback_error(
    target: &str,
    first: &IoFailure,
    second: &IoFailure,
    copy: &IoFailure,
) -> (r: String)
    ensures
        r@ == copy_fallback_text(target@, first@, second@, copy@),
{
    let mut message = String::from_str("写入目标文件失败：");
    message.append(target);
    message.append("\n首次替换失败：");
    message.append(first.text.as_str());
    message.append("\n二次替换失败：");
    message.append(second.text.as_str());
    message.append("\n最终复制失败：");
    message.append(copy.text.as_str());
    if denied(copy) || denied(first) || denied(second) {
        message.append(
            "\n可能原因：目标文件是只读的、正在被 Unreal Editor / 编辑器占用，或当前程序没有写入权限。",
        );
    }
    message
}

/// What is reported of making the folder of a file.
pub open spec fn parent_outcome(parent: Option<Seq<char>>, failure: Option<FailureView>) -> Result<
    (),
    Seq<char>,
> {
    match (parent, failure) {
        (None, _) => Err("目标路径缺少父目录。"@),
        (Some(folder), Some(f)) => Err(io_error_text("创建目标目录失败"@, folder, f)),
        (Some(_), None) => Ok(()),
    }
}

/// What is reported of making the folder of a file: `parent` is that folder, if
/// there is one at all, and `failure` what went wrong.
pub fn ensure_parent_dir(parent: &Option<String>, failure: &Option<IoFailure>) -> (r: Result<
    (),
    String,
>)
    ensures
        crate::rules::unit_result(r) == parent_outcome(
            crate::text::opt_text(*parent),
            failure_view(*failure),
        ),
{
    match (parent, failure) {
        (None, _) => Err(String::from_str("目标路径缺少父目录。")),
        (Some(folder), Some(f)) => Err(format_io_error("创建目标目录失败", folder.as_str(), f)),
        (Some(_), None) => Ok(()),
    }
}

/// The name under which a file is written aside.
pub open spec fn temp_name(stem: Option<Seq<char>>, id: Seq<char>) -> Seq<char> {
    "."@ + (match stem {
        Some(text) => text,
        None => "temp"@,
    }) + "."@ + id + ".filesync.tmp"@
}

/// The name under which a file is written aside: hidden, made from the stem of
/// the target's name and an id that no other copy has.
pub fn temp_file_name(stem: Option<&str>, id: &str) -> (r: String)
    ensures
        r@ == temp_name(
            match stem {
                Some(text) => Some(text@),
                None => None,
            },
            id@,
        ),
{
    let mut name = String::from_str(".");
    match stem {
        Some(text) => {
            name.append(text);
        },
        None => {
            name.append("temp");
        },
    }
    name.append(".");
    name.append(id);
    name.append(".filesync.tmp");
    name
}

/// Where a copy stands: what it has asked for last.
#[derive(Debug, Clone, Copy, PartialEq, Eq, Structural)]
pub enum CopyPhase {
    Ready,
    Parent,
    Open,
    Create,
    Write,
    Flush,
    Probe,
    Unlock,
    Rename,
    ProbeAgain,
    UnlockAgain,
    RemoveOld,
    RenameAgain,
    UnlockLast,
    CopyOver,
    RemoveTemp,
    ReadTime,
    WriteTime,
    Finished,
}

/// What the driver of a copy reports.
#[derive(Debug)]
pub enum CopyEvent {
    Begin,
    Done,
    Exists(bool),
    Failed(IoFailure),
}

pub enum CopyEventView {
    Begin,
    Done,
    Exists(bool),
    Failed(FailureView),
}

impl View for CopyEvent {
    type V = CopyEventView;

    open spec fn view(&self) -> CopyEventView {
        match *self {
            CopyEvent::Begin => CopyEventView::Begin,
            CopyEvent::Done => CopyEventView::Done,
            CopyEvent::Exists(there) => CopyEventView::Exists(there),
            CopyEvent::Failed(failure) => CopyEventView::Failed(failure@),
        }
    }
}

/// What a copy asks of its driver.
#[derive(Debug)]
pub enum CopyAction {
    /// Make the folder of the target where it is missing.
    CreateParent,
    /// Open the source for reading.
    OpenSource,
    /// Make the file that is written aside.
    CreateTemp,
    /// Copy all of the source into it.
    WriteTemp,
    /// See to it that everything is written.
    FlushTemp,
    /// Say whether there is a target.
    ProbeTarget,
    /// Let the target be written, where it is read-only.
    ClearReadonly,
    /// Move the file that was written aside to the target's place.
    RenameTemp,
    /// Remove the target.
    RemoveTarget,
    /// Copy the file that was written aside over the target.
    CopyTemp,
    /// Remove the file that was written aside.
    RemoveTemp,
    /// Read when the source was written.
    ReadModified,
    /// Give the target that time.
    WriteModified,
    /// The copy is over.
    Finish(Result<(), String>),
}

pub enum CopyActionView {
    CreateParent,
    OpenSource,
    CreateTemp,
    WriteTemp,
    FlushTemp,
    ProbeTarget,
    ClearReadonly,
    RenameTemp,
    RemoveTarget,
    CopyTemp,
    RemoveTemp,
    ReadModified,
    WriteModified,
    Finish(Result<(), Seq<char>>),
}

impl View for CopyAction {
    type V = CopyActionView;

    open spec fn view(&self) -> CopyActionView {
        match *self {
            CopyAction::CreateParent => CopyActionView::CreateParent,
            CopyAction::OpenSource => CopyActionView::OpenSource,
            CopyAction::CreateTemp => CopyActionView::CreateTemp,
            CopyAction::WriteTemp => CopyActionView::WriteTemp,
            CopyAction::FlushTemp => CopyActionView::FlushTemp,
            CopyAction::ProbeTarget => CopyActionView::ProbeTarget,
            CopyAction::ClearReadonly => CopyActionView::ClearReadonly,
            CopyAction::RenameTemp => CopyActionView::RenameTemp,
            CopyAction::RemoveTarget => CopyActionView::RemoveTarget,
            CopyAction::CopyTemp => CopyActionView::CopyTemp,
            CopyAction::RemoveTemp => CopyActionView::RemoveTemp,
            CopyAction::ReadModified => CopyActionView::ReadModified,
            CopyAction::WriteModified => CopyActionView::WriteModified,
            CopyAction::Finish(result) => CopyActionView::Finish(
                match result {
                    Ok(_) => Ok(()),
                    Err(message) => Err(message@),
                },
            ),
        }
    }
}

/// A copy of a file, with the paths as they stand in reports.
#[derive(Debug)]
pub struct CopyRun {
    source: String,
    target: String,
    temp: String,
    parent: Option<String>,
    phase: CopyPhase,
    first: Option<IoFailure>,
    second: Option<IoFailure>,
}

/// The state of a copy; `first` and `second` are the moves that failed.
pub struct CopyView {
    pub source: Seq<char>,
    pub target: Seq<char>,
    pub temp: Seq<char>,
    pub parent: Option<Seq<char>>,
    pub phase: CopyPhase,
    pub first: Option<FailureView>,
    pub second: Option<FailureView>,
}

pub open spec fn failure_view(o: Option<IoFailure>) -> Option<FailureView> {
    match o {
        Some(failure) => Some(failure@),
        None => None,
    }
}

impl View for CopyRun {
    type V = CopyView;

    closed spec fn view(&self) -> CopyView {
        CopyView {
            source: self.source@,
            target: self.target@,
            temp: self.temp@,
            parent: crate::text::opt_text(self.parent),
            phase: self.phase,
            first: failure_view(self.first),
            second: failure_view(self.second),
        }
    }
}

pub open spec fn new_copy(
    source: Seq<char>,
    target: Seq<char>,
    temp: Seq<char>,
    parent: Option<Seq<char>>,
) -> CopyView {
    CopyView {
        source,
        target,
        temp,
        parent,
        phase: CopyPhase::Ready,
        first: None,
        second: None,
    }
}

pub open spec fn copy_at(c: CopyView, phase: CopyPhase, action: CopyActionView) -> (
    CopyView,
    CopyActionView,
) {
    (CopyView { phase, ..c }, action)
}

pub open spec fn copy_gives_up(c: CopyView, message: Seq<char>) -> (CopyView, CopyActionView) {
    copy_at(c, CopyPhase::Finished, CopyActionView::Finish(Err(message)))
}

/// What a copy that fails at a step reports: what was to be done, and where.
pub open spec fn copy_failure_text(c: CopyView, failure: FailureView) -> Seq<char> {
    match c.phase {
        CopyPhase::Parent => io_error_text("创建目标目录失败"@, c.parent->0, failure),
        CopyPhase::Open => io_error_text("读取源文件失败"@, c.source, failure),
        CopyPhase::Create => io_error_text("创建临时文件失败"@, c.temp, failure),
        CopyPhase::Write => io_error_text("写入临时文件失败"@, c.temp, failure),
        CopyPhase::Flush => io_error_text("刷新临时文件失败"@, c.temp, failure),
        CopyPhase::UnlockAgain => io_error_text("移除只读属性失败"@, c.target, failure),
        CopyPhase::RemoveOld => io_error_text("删除旧目标文件失败"@, c.target, failure),
        CopyPhase::CopyOver => copy_fallback_text(c.target, c.first->0, c.second->0, failure),
        CopyPhase::RemoveTemp => io_error_text("清理临时文件失败"@, c.temp, failure),
        CopyPhase::ReadTime => io_error_text("读取源文件时间失败"@, c.source, failure),
        _ => io_error_text("写入目标文件时间失败"@, c.target, failure),
    }
}

/// What a copy asks for next, once what it asked for is done.
pub open spec fn copy_done(c: CopyView) -> (CopyView, CopyActionView) {
    match c.phase {
        CopyPhase::Parent => copy_at(c, CopyPhase::Open, CopyActionView::OpenSource),
        CopyPhase::Open => copy_at(c, CopyPhase::Create, CopyActionView::CreateTemp),
        CopyPhase::Create => copy_at(c, CopyPhase::Write, CopyActionView::WriteTemp),
        CopyPhase::Write => copy_at(c, CopyPhase::Flush, CopyActionView::FlushTemp),
        CopyPhase::Flush => copy_at(c, CopyPhase::Probe, CopyActionView::ProbeTarget),
        CopyPhase::Unlock => copy_at(c, CopyPhase::Rename, CopyActionView::RenameTemp),
        CopyPhase::Rename => copy_at(c, CopyPhase::ReadTime, CopyActionView::ReadModified),
        CopyPhase::UnlockAgain => copy_at(c, CopyPhase::RemoveOld, CopyActionView::RemoveTarget),
        CopyPhase::RemoveOld => copy_at(c, CopyPhase::RenameAgain, CopyActionView::RenameTemp),
        CopyPhase::RenameAgain => copy_at(c, CopyPhase::ReadTime, CopyActionView::ReadModified),
        CopyPhase::UnlockLast => copy_at(c, CopyPhase::CopyOver, CopyActionView::CopyTemp),
        CopyPhase::CopyOver => copy_at(c, CopyPhase::RemoveTemp, CopyActionView::RemoveTemp),
        CopyPhase::RemoveTemp => copy_at(c, CopyPhase::ReadTime, CopyActionView::ReadModified),
        CopyPhase::ReadTime => copy_at(c, CopyPhase::WriteTime, CopyActionView::WriteModified),
        _ => copy_at(c, CopyPhase::Finished, CopyActionView::Finish(Ok(()))),
    }
}

/// What a copy does and asks for next, once `e` was reported to it. That the
/// target could not be made writable matters only once a move has failed.
pub open spec fn copy_next(c: CopyView, e: CopyEventView) -> (CopyView, CopyActionView) {
    match (c.phase, e) {
        (CopyPhase::Ready, CopyEventView::Begin) => if c.parent is None {
            copy_gives_up(c, "目标路径缺少父目录。"@)
        } else {
            copy_at(c, CopyPhase::Parent, CopyActionView::CreateParent)
        },
        (CopyPhase::Probe, CopyEventView::Exists(there)) => if there {
            copy_at(c, CopyPhase::Unlock, CopyActionView::ClearReadonly)
        } else {
            copy_at(c, CopyPhase::Rename, CopyActionView::RenameTemp)
        },
        (CopyPhase::Unlock, CopyEventView::Failed(_)) => copy_done(c),
        (CopyPhase::Rename, CopyEventView::Failed(failure)) => copy_at(
            CopyView { first: Some(failure), ..c },
            CopyPhase::ProbeAgain,
            CopyActionView::ProbeTarget,
        ),
        (CopyPhase::ProbeAgain, CopyEventView::Exists(there)) => if there {
            copy_at(c, CopyPhase::UnlockAgain, CopyActionView::ClearReadonly)
        } else {
            copy_at(c, CopyPhase::RenameAgain, CopyActionView::RenameTemp)
        },
        (CopyPhase::RenameAgain, CopyEventView::Failed(failure)) => copy_at(
            CopyView { second: Some(failure), ..c },
            CopyPhase::UnlockLast,
            CopyActionView::ClearReadonly,
        ),
        (CopyPhase::UnlockLast, CopyEventView::Failed(_)) => copy_done(c),
        (_, CopyEventView::Failed(failure)) => copy_gives_up(c, copy_failure_text(c, failure)),
        _ => copy_done(c),
    }
}

/// Whether `e` is a report on what the copy has asked for.
pub open spec fn copy_fits(c: CopyView, e: CopyEventView) -> bool {
    match (c.phase, e) {
        (CopyPhase::Ready, CopyEventView::Begin) => true,
        (CopyPhase::Ready, _) => false,
        (CopyPhase::Finished, _) => false,
        (CopyPhase::Probe, CopyEventView::Exists(_)) => true,
        (CopyPhase::Probe, _) => false,
        (CopyPhase::ProbeAgain, CopyEventView::Exists(_)) => true,
        (CopyPhase::ProbeAgain, _) => false,
        (_, CopyEventView::Done) => true,
        (_, CopyEventView::Failed(_)) => true,
        _ => false,
    }
}

/// What holds of a copy between any two steps.
pub open spec fn copy_ok(c: CopyView) -> bool {
    &&& c.phase != CopyPhase::Ready && c.phase != CopyPhase::Finished ==> c.parent is Some
    &&& (c.phase == CopyPhase::RenameAgain || c.phase == CopyPhase::UnlockLast || c.phase
        == CopyPhase::CopyOver) ==> c.first is Some
    &&& (c.phase == CopyPhase::ProbeAgain || c.phase == CopyPhase::UnlockAgain || c.phase
        == CopyPhase::RemoveOld) ==> c.first is Some
    &&& (c.phase == CopyPhase::UnlockLast || c.phase == CopyPhase::CopyOver) ==> c.second is Some
}

impl CopyRun {
    pub open spec fn wf(self) -> bool {
        copy_ok(self@)
    }

    /// A copy from one path to another by way of a third; `parent` is the
    /// folder of the target.
    pub fn new(source: String, target: String, temp: String, parent: Option<String>) -> (r: Self)
        ensures
            r@ == new_copy(source@, target@, temp@, crate::text::opt_text(parent)),
            r.wf(),
    {
        CopyRun { source, target, temp, parent, phase: CopyPhase::Ready, first: None, second: None }
    }

    fn done(&mut self) -> (r: CopyAction)
        requires
            old(self).wf(),
            copy_fits(old(self)@, CopyEventView::Done),
        ensures
            (final(self)@, r@) == copy_done(old(self)@),
            final(self).wf(),
    {
        let step = match self.phase {
            CopyPhase::Parent => (CopyPhase::Open, CopyAction::OpenSource),
            CopyPhase::Open => (CopyPhase::Create, CopyAction::CreateTemp),
            CopyPhase::Create => (CopyPhase::Write, CopyAction::WriteTemp),
            CopyPhase::Write => (CopyPhase::Flush, CopyAction::FlushTemp),
            CopyPhase::Flush => (CopyPhase::Probe, CopyAction::ProbeTarget),
            CopyPhase::Unlock => (CopyPhase::Rename, CopyAction::RenameTemp),
            CopyPhase::Rename => (CopyPhase::ReadTime, CopyAction::ReadModified),
            CopyPhase::UnlockAgain => (CopyPhase::RemoveOld, CopyAction::RemoveTarget),
            CopyPhase::RemoveOld => (CopyPhase::RenameAgain, CopyAction::RenameTemp),
            CopyPhase::RenameAgain => (CopyPhase::ReadTime, CopyAction::ReadModified),
            CopyPhase::UnlockLast => (CopyPhase::CopyOver, CopyAction::CopyTemp),
            CopyPhase::CopyOver => (CopyPhase::RemoveTemp, CopyAction::RemoveTemp),
            CopyPhase::RemoveTemp => (CopyPhase::ReadTime, CopyAction::ReadModified),
            CopyPhase::ReadTime => (CopyPhase::WriteTime, CopyAction::WriteModified),
            _ => (CopyPhase::Finished, CopyAction::Finish(Ok(()))),
        };
        self.phase = step.0;
        step.1
    }

    /// The report on the step that failed.
    fn failure_text(&self, failure: &IoFailure) -> (r: String)
        requires
            self.wf(),
            self@.phase != CopyPhase::Ready,
            self@.phase != CopyPhase::Finished,
        ensures
            r@ == copy_failure_text(self@, failure@),
    {
        match (self.phase, &self.parent, &self.first, &self.second) {
            (CopyPhase::Parent, Some(parent), _, _) => format_io_error(
                "创建目标目录失败",
                parent.as_str(),
                failure,
            ),
            (CopyPhase::Open, _, _, _) => format_io_error(
                "读取源文件失败",
                self.source.as_str(),
                failure,
            ),
            (CopyPhase::Create, _, _, _) => format_io_error(
                "创建临时文件失败",
                self.temp.as_str(),
                failure,
            ),
            (CopyPhase::Write, _, _, _) => format_io_error(
                "写入临时文件失败",
                self.temp.as_str(),
                failure,
            ),
            (CopyPhase::Flush, _, _, _) => format_io_error(
                "刷新临时文件失败",
                self.temp.as_str(),
                failure,
            ),
            (CopyPhase::UnlockAgain, _, _, _) => format_io_error(
                "移除只读属性失败",
                self.target.as_str(),
                failure,
            ),
            (CopyPhase::RemoveOld, _, _, _) => format_io_error(
                "删除旧目标文件失败",
                self.target.as_str(),
                failure,
            ),
            (CopyPhase::CopyOver, _, Some(first), Some(second)) => format_copy_fallback_error(
                self.target.as_str(),
                first,
                second,
                failure,
            ),
            (CopyPhase::RemoveTemp, _, _, _) => format_io_error(
                "清理临时文件失败",
                self.temp.as_str(),
                failure,
            ),
            (CopyPhase::ReadTime, _, _, _) => format_io_error(
                "读取源文件时间失败",
                self.source.as_str(),
                failure,
            ),
            _ => format_io_error("写入目标文件时间失败", self.target.as_str(), failure),
        }
    }

    /// Takes the report on what the copy has asked for, and asks for the next step.
    pub fn copy_file_atomic(&mut self, event: CopyEvent) -> (r: CopyAction)
        requires
            old(self).wf(),
            copy_fits(old(self)@, event@),
        ensures
            (final(self)@, r@) == copy_next(old(self)@, event@),
            final(self).wf(),
    {
        match (self.phase, event) {
            (CopyPhase::Ready, CopyEvent::Begin) => {
                if self.parent.is_none() {
                    self.phase = CopyPhase::Finished;
                    CopyAction::Finish(Err(String::from_str("目标路径缺少父目录。")))
                } else {
                    self.phase = CopyPhase::Parent;
                    CopyAction::CreateParent
                }
            },
            (CopyPhase::Probe, CopyEvent::Exists(there)) => {
                if there {
                    self.phase = CopyPhase::Unlock;
                    CopyAction::ClearReadonly
                } else {
                    self.phase = CopyPhase::Rename;
                    CopyAction::RenameTemp
                }
            },
            (CopyPhase::Unlock, CopyEvent::Failed(_)) => self.done(),
            (CopyPhase::Rename, CopyEvent::Failed(failure)) => {
                self.first = Some(failure);
                self.phase = CopyPhase::ProbeAgain;
                CopyAction::ProbeTarget
            },
            (CopyPhase::ProbeAgain, CopyEvent::Exists(there)) => {
                if there {
                    self.phase = CopyPhase::UnlockAgain;
                    CopyAction::ClearReadonly
                } else {
                    self.phase = CopyPhase::RenameAgain;
                    CopyAction::RenameTemp
                }
            },
            (CopyPhase::RenameAgain, CopyEvent::Failed(failure)) => {
                self.second = Some(failure);
                self.phase = CopyPhase::UnlockLast;
                CopyAction::ClearReadonly
            },
            (CopyPhase::UnlockLast, CopyEvent::Failed(_)) => self.done(),
            (_, CopyEvent::Failed(failure)) => {
                let message = self.failure_text(&failure);
                self.phase = CopyPhase::Finished;
                CopyAction::Finish(Err(message))
            },
            _ => self.done(),
        }
    }

    /// Whether `event` is a report on what the copy has asked for.
    pub fn accepts(&self, event: &CopyEvent) -> (r: bool)
        ensures
            r == copy_fits(self@, event@),
    {
        match (self.phase, event) {
            (CopyPhase::Ready, CopyEvent::Begin) => true,
            (CopyPhase::Ready, _) => false,
            (CopyPhase::Finished, _) => false,
            (CopyPhase::Probe, CopyEvent::Exists(_)) => true,
            (CopyPhase::Probe, _) => false,
            (CopyPhase::ProbeAgain, CopyEvent::Exists(_)) => true,
            (CopyPhase::ProbeAgain, _) => false,
            (_, CopyEvent::Done) => true,
            (_, CopyEvent::Failed(_)) => true,
            _ => false,
        }
    }
}

} // verus!
