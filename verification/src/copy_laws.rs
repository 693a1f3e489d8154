//! What a copy does to the file that it replaces, taken as a whole.
use crate::atomic_copy::{
    copy_fallback_text, copy_fits, copy_next, io_error_text, new_copy, parent_outcome, temp_name,
    CopyActionView, CopyEventView, CopyPhase, CopyView, FailureView,
};
use crate::sync_laws::FileState;
use vstd::prelude::*;
use vstd::string::*;

verus! {

/// The three places that a copy has to do with.
pub struct Places {
    pub source: Option<FileState>,
    pub target: Option<FileState>,
    pub temp: Option<FileState>,
}

pub open spec fn same_bytes(a: Option<FileState>, b: Option<FileState>) -> bool {
    a is Some && b is Some && a->0.bytes == b->0.bytes
}

/// Whether nothing but the file that is written aside differs.
pub open spec fn same_but_temp(w: Places, w2: Places) -> bool {
    w2.source == w.source && w2.target == w.target
}

/// Whether a driver that is asked for `a` may report `e` and leave the places
/// as `w2`. Writing that fails may leave part of what was to be written.
pub open spec fn copy_answers(w: Places, a: CopyActionView, w2: Places, e: CopyEventView) -> bool {
    match (a, e) {
        (CopyActionView::OpenSource, CopyEventView::Done) => w2 == w && w.source is Some,
        (CopyActionView::CreateTemp, CopyEventView::Done) => same_but_temp(w, w2) && w2.temp is Some,
        (CopyActionView::CreateTemp, CopyEventView::Failed(_)) => same_but_temp(w, w2),
        (CopyActionView::WriteTemp, CopyEventView::Done) => same_but_temp(w, w2) && same_bytes(
            w2.temp,
            w.source,
        ),
        (CopyActionView::WriteTemp, CopyEventView::Failed(_)) => same_but_temp(w, w2),
        (CopyActionView::ProbeTarget, CopyEventView::Exists(there)) => w2 == w && there == (
        w.target is Some),
        (CopyActionView::RenameTemp, CopyEventView::Done) => w.temp is Some && w2 == (Places {
            target: w.temp,
            temp: None,
            ..w
        }),
        (CopyActionView::RemoveTarget, CopyEventView::Done) => w2 == (Places { target: None, ..w }),
        (CopyActionView::CopyTemp, CopyEventView::Done) => w2.source == w.source && w2.temp
            == w.temp && same_bytes(w2.target, w.temp),
        (CopyActionView::CopyTemp, CopyEventView::Failed(_)) => w2.source == w.source && w2.temp
            == w.temp,
        (CopyActionView::RemoveTemp, CopyEventView::Done) => w2 == (Places { temp: None, ..w }),
        (CopyActionView::WriteModified, CopyEventView::Done) => match (w.source, w.target) {
            (Some(s), Some(t)) => w2 == (Places {
                target: Some(FileState { modified: s.modified, ..t }),
                ..w
            }),
            _ => false,
        },
        (CopyActionView::Finish(_), _) => false,
        (CopyActionView::ProbeTarget, _) => false,
        (_, CopyEventView::Done) => w2 == w,
        (_, CopyEventView::Failed(_)) => w2 == w,
        _ => false,
    }
}

/// A moment of a copy.
pub struct CopyMoment {
    pub event: CopyEventView,
    pub places: Places,
    pub copy: CopyView,
    pub action: CopyActionView,
}

pub open spec fn copy_follows(a: CopyMoment, b: CopyMoment) -> bool {
    &&& copy_fits(a.copy, b.event)
    &&& copy_answers(a.places, a.action, b.places, b.event)
    &&& (b.copy, b.action) == copy_next(a.copy, b.event)
}

/// Whether `moments` is a copy that begins with the places as in `w`.
pub open spec fn is_copy(
    source: Seq<char>,
    target: Seq<char>,
    temp: Seq<char>,
    parent: Option<Seq<char>>,
    w: Places,
    moments: Seq<CopyMoment>,
) -> bool {
    &&& moments.len() > 0
    &&& moments[0].places == w
    &&& (moments[0].copy, moments[0].action) == copy_next(
        new_copy(source, target, temp, parent),
        CopyEventView::Begin,
    )
    &&& forall|i: int| 0 < i < moments.len() ==> copy_follows(moments[i - 1], #[trigger] moments[i])
}

/// Whether the target is as it was, or its new content is complete: in its
/// place or aside.
pub open spec fn old_or_whole(w0: Places, w: Places) -> bool {
    w.target == w0.target || same_bytes(w.target, w0.source) || same_bytes(w.temp, w0.source)
}

spec fn asked(phase: CopyPhase) -> CopyActionView {
    match phase {
        CopyPhase::Parent => CopyActionView::CreateParent,
        CopyPhase::Open => CopyActionView::OpenSource,
        CopyPhase::Create => CopyActionView::CreateTemp,
        CopyPhase::Write => CopyActionView::WriteTemp,
        CopyPhase::Flush => CopyActionView::FlushTemp,
        CopyPhase::Probe => CopyActionView::ProbeTarget,
        CopyPhase::Unlock => CopyActionView::ClearReadonly,
        CopyPhase::Rename => CopyActionView::RenameTemp,
        CopyPhase::ProbeAgain => CopyActionView::ProbeTarget,
        CopyPhase::UnlockAgain => CopyActionView::ClearReadonly,
        CopyPhase::RemoveOld => CopyActionView::RemoveTarget,
        CopyPhase::RenameAgain => CopyActionView::RenameTemp,
        CopyPhase::UnlockLast => CopyActionView::ClearReadonly,
        CopyPhase::CopyOver => CopyActionView::CopyTemp,
        CopyPhase::RemoveTemp => CopyActionView::RemoveTemp,
        CopyPhase::ReadTime => CopyActionView::ReadModified,
        _ => CopyActionView::WriteModified,
    }
}

spec fn copy_inv(w0: Places, m: CopyMoment) -> bool {
    let w = m.places;
    &&& w.source == w0.source
    &&& old_or_whole(w0, w)
    &&& if m.copy.phase == CopyPhase::Finished {
        match m.action {
            CopyActionView::Finish(Ok(_)) => w.target == w0.source && w.source is Some && w.temp
                is None,
            CopyActionView::Finish(Err(_)) => true,
            _ => false,
        }
    } else {
        &&& m.action == asked(m.copy.phase)
        &&& match m.copy.phase {
            CopyPhase::Ready => false,
            CopyPhase::Parent => w.target == w0.target,
            CopyPhase::Open => w.target == w0.target,
            CopyPhase::Create => w.target == w0.target && w0.source is Some,
            CopyPhase::Write => w.target == w0.target && w0.source is Some,
            CopyPhase::RemoveTemp => same_bytes(w.target, w0.source),
            CopyPhase::ReadTime => same_bytes(w.target, w0.source) && w.temp is None,
            CopyPhase::WriteTime => same_bytes(w.target, w0.source) && w.temp is None,
            _ => same_bytes(w.temp, w0.source),
        }
    }
}

proof fn lemma_copy_moment(
    source: Seq<char>,
    target: Seq<char>,
    temp: Seq<char>,
    parent: Option<Seq<char>>,
    w: Places,
    moments: Seq<CopyMoment>,
    i: int,
)
    requires
        is_copy(source, target, temp, parent, w, moments),
        0 <= i < moments.len(),
    ensures
        copy_inv(w, moments[i]),
    decreases i,
{
    if i > 0 {
        lemma_copy_moment(source, target, temp, parent, w, moments, i - 1);
        assert(copy_follows(moments[i - 1], moments[i]));
    }
}

/// A copy that succeeds leaves the target as the source was at the start, with
/// its time, leaves the source alone and nothing aside.
pub proof fn finished_copy_equals_its_source(
    source: Seq<char>,
    target: Seq<char>,
    temp: Seq<char>,
    parent: Option<Seq<char>>,
    w: Places,
    moments: Seq<CopyMoment>,
)
    requires
        is_copy(source, target, temp, parent, w, moments),
        moments.last().action matches CopyActionView::Finish(Ok(_)),
    ensures
        moments.last().places == (Places { target: w.source, temp: None, ..w }),
        w.source is Some,
{
    lemma_copy_moment(source, target, temp, parent, w, moments, moments.len() - 1);
}

/// At every moment of every copy, also of one that fails, the source is
/// unchanged, and the target is as it was or its new content is complete.
pub proof fn target_is_old_or_new_is_whole(
    source: Seq<char>,
    target: Seq<char>,
    temp: Seq<char>,
    parent: Option<Seq<char>>,
    w: Places,
    moments: Seq<CopyMoment>,
    i: int,
)
    requires
        is_copy(source, target, temp, parent, w, moments),
        0 <= i < moments.len(),
    ensures
        moments[i].places.source == w.source,
        old_or_whole(w, moments[i].places),
{
    lemma_copy_moment(source, target, temp, parent, w, moments, i);
}

/// How many steps a copy may still take.
pub open spec fn copy_steps_left(phase: CopyPhase) -> nat {
    match phase {
        CopyPhase::Ready => 18,
        CopyPhase::Parent => 17,
        CopyPhase::Open => 16,
        CopyPhase::Create => 15,
        CopyPhase::Write => 14,
        CopyPhase::Flush => 13,
        CopyPhase::Probe => 12,
        CopyPhase::Unlock => 11,
        CopyPhase::Rename => 10,
        CopyPhase::ProbeAgain => 9,
        CopyPhase::UnlockAgain => 8,
        CopyPhase::RemoveOld => 7,
        CopyPhase::RenameAgain => 6,
        CopyPhase::UnlockLast => 5,
        CopyPhase::CopyOver => 4,
        CopyPhase::RemoveTemp => 3,
        CopyPhase::ReadTime => 2,
        CopyPhase::WriteTime => 1,
        CopyPhase::Finished => 0,
    }
}

/// Every step brings a copy nearer to its end, so that every copy comes to one.
pub proof fn every_copy_step_leads_to_the_end(c: CopyView, e: CopyEventView)
    requires
        copy_fits(c, e),
    ensures
        copy_steps_left(copy_next(c, e).0.phase) < copy_steps_left(c.phase),
{
}

/// The first phases of a copy.
spec fn opening(k: int) -> CopyPhase {
    if k == 0 {
        CopyPhase::Parent
    } else if k == 1 {
        CopyPhase::Open
    } else if k == 2 {
        CopyPhase::Create
    } else if k == 3 {
        CopyPhase::Write
    } else if k == 4 {
        CopyPhase::Flush
    } else {
        CopyPhase::Probe
    }
}

proof fn lemma_opening(
    source: Seq<char>,
    target: Seq<char>,
    temp: Seq<char>,
    parent: Option<Seq<char>>,
    w: Places,
    moments: Seq<CopyMoment>,
    k: int,
)
    requires
        is_copy(source, target, temp, parent, w, moments),
        0 <= k < moments.len(),
        k <= 5,
    ensures
        ({
            ||| moments[k].copy.phase == opening(k) && moments[k].action == asked(opening(k))
            ||| moments[k].copy.phase == CopyPhase::Finished && moments[k].action is Finish && k
                == moments.len() - 1
        }),
    decreases k,
{
    if k > 0 {
        lemma_opening(source, target, temp, parent, w, moments, k - 1);
        assert(copy_follows(moments[k - 1], moments[k]));
    }
    if k < moments.len() - 1 {
        assert(copy_follows(moments[k], moments[k + 1]));
    }
}

/// A copy touches the target, or moves anything to its place, only once the
/// folder was made, the source was opened, all of it was written aside and
/// everything that was written is on disk; it asks for that one by one, first
/// of all.
pub proof fn copy_prepares_before_it_moves(
    source: Seq<char>,
    target: Seq<char>,
    temp: Seq<char>,
    parent: Option<Seq<char>>,
    w: Places,
    moments: Seq<CopyMoment>,
    i: int,
)
    requires
        is_copy(source, target, temp, parent, w, moments),
        0 <= i < moments.len(),
        moments[i].action is RenameTemp || moments[i].action is RemoveTarget
            || moments[i].action is CopyTemp || moments[i].action is ClearReadonly
            || moments[i].action is WriteModified,
    ensures
        i > 5,
        moments[0].action == CopyActionView::CreateParent,
        moments[1].action == CopyActionView::OpenSource,
        moments[2].action == CopyActionView::CreateTemp,
        moments[3].action == CopyActionView::WriteTemp,
        moments[4].action == CopyActionView::FlushTemp,
        moments[5].action == CopyActionView::ProbeTarget,
{
    let n = if i < 5 {
        i
    } else {
        5
    };
    lemma_opening(source, target, temp, parent, w, moments, n);
    assert(i > 5);
    lemma_opening(source, target, temp, parent, w, moments, 4);
    lemma_opening(source, target, temp, parent, w, moments, 3);
    lemma_opening(source, target, temp, parent, w, moments, 2);
    lemma_opening(source, target, temp, parent, w, moments, 1);
    lemma_opening(source, target, temp, parent, w, moments, 0);
}

/// What follows a look at the target: where it is there it is made writable
/// first, where it is not the new file is moved into its place. A move that
/// fails does not end the copy.
pub proof fn target_is_made_writable(
    source: Seq<char>,
    target: Seq<char>,
    temp: Seq<char>,
    parent: Option<Seq<char>>,
    w: Places,
    moments: Seq<CopyMoment>,
    i: int,
)
    requires
        is_copy(source, target, temp, parent, w, moments),
        0 <= i < moments.len() - 1,
    ensures
        moments[i].action is ProbeTarget && moments[i].places.target is Some
            ==> moments[i + 1].action == CopyActionView::ClearReadonly,
        moments[i].action is ProbeTarget && moments[i].places.target is None
            ==> moments[i + 1].action == CopyActionView::RenameTemp,
        moments[i].action is RenameTemp && moments[i + 1].event is Failed ==> !(
        moments[i + 1].action is Finish),
        moments[i].action is RenameTemp && moments[i + 1].event is Done ==> moments[i + 1].action
            == CopyActionView::ReadModified,
        moments[i].action is CopyTemp && moments[i + 1].event is Done ==> moments[i + 1].action
            == CopyActionView::RemoveTemp,
        moments[i].action is ReadModified && moments[i + 1].event is Done ==> moments[i + 1].action
            == CopyActionView::WriteModified,
{
    lemma_copy_moment(source, target, temp, parent, w, moments, i);
    assert(copy_follows(moments[i], moments[i + 1]));
}

/// A copy with a folder to go into succeeds as long as nothing fails but moves
/// and making the target writable before a move that was not tried yet.
pub proof fn copy_survives_failed_moves(
    source: Seq<char>,
    target: Seq<char>,
    temp: Seq<char>,
    parent: Option<Seq<char>>,
    w: Places,
    moments: Seq<CopyMoment>,
)
    requires
        is_copy(source, target, temp, parent, w, moments),
        parent is Some,
        moments.last().action is Finish,
        forall|i: int|
            0 < i < moments.len() && (#[trigger] moments[i]).event is Failed ==> moments[i
                - 1].action is RenameTemp,
    ensures
        moments.last().action == CopyActionView::Finish(Ok(())),
        moments.last().places.target == w.source,
{
    let n = moments.len();
    lemma_copy_moment(source, target, temp, parent, w, moments, n - 1);
    assert(n > 1);
    lemma_copy_moment(source, target, temp, parent, w, moments, n - 2);
    assert(copy_follows(moments[n - 2], moments[n - 1]));
}

/// A copy without a folder to go into does not begin.
pub proof fn copy_needs_a_folder(source: Seq<char>, target: Seq<char>, temp: Seq<char>)
    ensures
        copy_next(new_copy(source, target, temp, None), CopyEventView::Begin).1
            == CopyActionView::Finish(Err("目标路径缺少父目录。"@)),
{
}

/// What is said of a failure is what was to be done, where, and what the system
/// says; where that is that access is denied, which it reports under the number
/// five, there is a hint at the end.
pub proof fn failure_names_what_and_where(
    action: Seq<char>,
    path: Seq<char>,
    failure: FailureView,
)
    ensures
        failure.os_code != Some(5i32) ==> io_error_text(action, path, failure) == action + "："@
            + path + "\n"@ + failure.text,
        failure.os_code == Some(5i32) ==> io_error_text(action, path, failure) == action + "："@
            + path + "\n"@ + failure.text
            + "\n可能原因：目标文件是只读的、正在被 Unreal Editor / 编辑器占用，或当前程序没有写入权限。"@,
{
}

/// The step at which a copy failed, and the place that it was about, can be
/// told from what it says.
pub proof fn failed_copy_names_its_step(c: CopyView, f: FailureView, folder: Seq<char>)
    requires
        c.parent == Some(folder),
    ensures
        ({
            let told = |phase: CopyPhase, message: Seq<char>|
                copy_next(CopyView { phase, ..c }, CopyEventView::Failed(f)).1
                    == CopyActionView::Finish(Err(message));
            &&& told(CopyPhase::Parent, io_error_text("创建目标目录失败"@, folder, f))
            &&& told(CopyPhase::Open, io_error_text("读取源文件失败"@, c.source, f))
            &&& told(CopyPhase::Create, io_error_text("创建临时文件失败"@, c.temp, f))
            &&& told(CopyPhase::Write, io_error_text("写入临时文件失败"@, c.temp, f))
            &&& told(CopyPhase::Flush, io_error_text("刷新临时文件失败"@, c.temp, f))
            &&& told(CopyPhase::UnlockAgain, io_error_text("移除只读属性失败"@, c.target, f))
            &&& told(CopyPhase::RemoveOld, io_error_text("删除旧目标文件失败"@, c.target, f))
            &&& told(CopyPhase::RemoveTemp, io_error_text("清理临时文件失败"@, c.temp, f))
            &&& told(CopyPhase::ReadTime, io_error_text("读取源文件时间失败"@, c.source, f))
            &&& told(CopyPhase::WriteTime, io_error_text("写入目标文件时间失败"@, c.target, f))
            &&& c.first is Some && c.second is Some ==> told(
                CopyPhase::CopyOver,
                copy_fallback_text(c.target, c.first->0, c.second->0, f),
            )
        }),
{
}

/// What a copy does about a move that fails. After the first one it looks for
/// the target again, makes it writable, removes it and moves once more; after
/// the second one it makes the target writable, whether or not that works, and
/// copies over it. It remembers how both moves failed.
pub proof fn copy_falls_back_in_order(c: CopyView, f: FailureView)
    ensures
        ({
            let next = |phase: CopyPhase, e: CopyEventView| copy_next(CopyView { phase, ..c }, e);
            let failed = CopyEventView::Failed(f);
            let done = CopyEventView::Done;
            &&& next(CopyPhase::Unlock, done).1 == CopyActionView::RenameTemp
            &&& next(CopyPhase::Unlock, failed).1 == CopyActionView::RenameTemp
            &&& next(CopyPhase::Rename, failed).1 == CopyActionView::ProbeTarget
            &&& next(CopyPhase::Rename, failed).0.first == Some(f)
            &&& next(CopyPhase::Rename, failed).0.phase == CopyPhase::ProbeAgain
            &&& next(CopyPhase::ProbeAgain, CopyEventView::Exists(true)).1
                == CopyActionView::ClearReadonly
            &&& next(CopyPhase::ProbeAgain, CopyEventView::Exists(false)).1
                == CopyActionView::RenameTemp
            &&& next(CopyPhase::ProbeAgain, CopyEventView::Exists(true)).0.phase
                == CopyPhase::UnlockAgain
            &&& next(CopyPhase::UnlockAgain, done).1 == CopyActionView::RemoveTarget
            &&& next(CopyPhase::RemoveOld, done).1 == CopyActionView::RenameTemp
            &&& next(CopyPhase::RemoveOld, done).0.phase == CopyPhase::RenameAgain
            &&& next(CopyPhase::RenameAgain, failed).1 == CopyActionView::ClearReadonly
            &&& next(CopyPhase::RenameAgain, failed).0.second == Some(f)
            &&& next(CopyPhase::RenameAgain, failed).0.first == c.first
            &&& next(CopyPhase::RenameAgain, failed).0.phase == CopyPhase::UnlockLast
            &&& next(CopyPhase::UnlockLast, done).1 == CopyActionView::CopyTemp
            &&& next(CopyPhase::UnlockLast, failed).1 == CopyActionView::CopyTemp
            &&& next(CopyPhase::CopyOver, done).1 == CopyActionView::RemoveTemp
        }),
{
}

/// A copy that could neither be moved nor copied into its place says how all
/// three attempts failed, with the hint where any of them was denied.
pub proof fn last_attempt_names_all_three(
    target: Seq<char>,
    first: FailureView,
    second: FailureView,
    copy: FailureView,
)
    ensures
        ({
            let message = "写入目标文件失败："@ + target + "\n首次替换失败："@ + first.text
                + "\n二次替换失败："@ + second.text + "\n最终复制失败："@ + copy.text;
            let denied = first.os_code == Some(5i32) || second.os_code == Some(5i32) || copy.os_code
                == Some(5i32);
            &&& !denied ==> copy_fallback_text(target, first, second, copy) == message
            &&& denied ==> copy_fallback_text(target, first, second, copy) == message
                + "\n可能原因：目标文件是只读的、正在被 Unreal Editor / 编辑器占用，或当前程序没有写入权限。"@
        }),
        parent_outcome(None, None) == Err::<(), Seq<char>>("目标路径缺少父目录。"@),
        parent_outcome(Some(target), None) == Ok::<(), Seq<char>>(()),
        parent_outcome(Some(target), Some(first)) == Err::<(), Seq<char>>(
            io_error_text("创建目标目录失败"@, target, first),
        ),
{
}

/// The file that is written aside is hidden, and named after the target's stem
/// and an id.
pub proof fn file_aside_is_named_by_its_id(stem: Seq<char>, id: Seq<char>)
    ensures
        temp_name(Some(stem), id) == "."@ + stem + "."@ + id + ".filesync.tmp"@,
        temp_name(None, id) == "."@ + "temp"@ + "."@ + id + ".filesync.tmp"@,
{
}

/// A copy takes every report that its driver may give on what it has asked for.
pub proof fn every_copy_report_is_taken(
    source: Seq<char>,
    target: Seq<char>,
    temp: Seq<char>,
    parent: Option<Seq<char>>,
    w: Places,
    moments: Seq<CopyMoment>,
    w2: Places,
    e: CopyEventView,
)
    requires
        is_copy(source, target, temp, parent, w, moments),
        copy_answers(moments.last().places, moments.last().action, w2, e),
    ensures
        copy_fits(moments.last().copy, e),
{
    lemma_copy_moment(source, target, temp, parent, w, moments, moments.len() - 1);
}

} // verus!
