//! The files around the store: the copy that is kept of a broken document, the
//! file that is written first, and what the log says of a repair.
use crate::clock::{current_time, Timestamp};
use crate::text::{decimal, decimal_text};
use vstd::prelude::*;
use vstd::string::*;

verus! {

broadcast use vstd::string::group_string_axioms;

/// The decimal numeral of a number that may be negative.
pub open spec fn signed_text(n: int) -> Seq<char> {
    if n < 0 {
        "-"@ + decimal_text((-n) as nat)
    } else {
        decimal_text(n as nat)
    }
}

/// The decimal numeral of a number that may be negative.
pub fn signed_decimal(n: i64) -> (r: String)
    ensures
        r@ == signed_text(n as int),
{
    if n >= 0 {
        return decimal(n as u64);
    }
    let mut r = String::from_str("-");
    let size: i128 = -(n as i128);
    r.append(decimal(size as u64).as_str());
    r
}

/// The milliseconds of a point in time.
pub open spec fn millis_of(at: Timestamp) -> int {
    at.seconds * 1000 + at.nanos / 1_000_000
}

/// The name of the copy that is kept of a broken document.
pub open spec fn corrupt_name(at: Timestamp) -> Seq<char> {
    "store.corrupt."@ + signed_text(millis_of(at)) + ".json"@
}

/// The name of the copy that is kept of a document found broken at a given time.
pub fn store_backup_name_at(at: Timestamp) -> (r: String)
    requires
        at.in_calendar(),
    ensures
        r@ == corrupt_name(at),
{
    let mut r = String::from_str("store.corrupt.");
    r.append(signed_decimal(at.millis()).as_str());
    r.append(".json");
    r
}

/// The name of the copy that is kept of a document found broken now.
pub fn backup_store_file() -> (r: String)
    ensures
        exists|now: Timestamp| now.in_calendar() && r@ == #[trigger] corrupt_name(now),
{
    let now = current_time();
    store_backup_name_at(now)
}

/// The name under which the store is written first.
pub open spec fn temp_store_name(at: Timestamp) -> Seq<char> {
    "store."@ + signed_text(millis_of(at)) + ".tmp"@
}

/// The name under which the store is written first at a given time.
pub fn store_temp_name_at(at: Timestamp) -> (r: String)
    requires
        at.in_calendar(),
    ensures
        r@ == temp_store_name(at),
{
    let mut r = String::from_str("store.");
    r.append(signed_decimal(at.millis()).as_str());
    r.append(".tmp");
    r
}

/// The name under which the store is written first now.
pub fn store_temp_name() -> (r: String)
    ensures
        exists|now: Timestamp| now.in_calendar() && r@ == #[trigger] temp_store_name(now),
{
    let now = current_time();
    store_temp_name_at(now)
}

pub open spec fn copy_result(r: Result<String, String>) -> Result<Seq<char>, Seq<char>> {
    match r {
        Ok(path) => Ok(path@),
        Err(message) => Err(message@),
    }
}

/// What the log says of something that was repaired in the store.
pub open spec fn repair_text(copied: Result<Seq<char>, Seq<char>>, warning: Seq<char>) -> Seq<char> {
    let note = match copied {
        Ok(path) => "原配置已备份到 "@ + path,
        Err(message) => "原配置备份失败："@ + message,
    };
    "检测到配置异常，已自动修复。"@ + note + "。"@ + warning
}

/// What the log says of something that was repaired in the store; `copied` is
/// the path of the copy that was kept of it, or why there is none.
pub fn repair_message(copied: &Result<String, String>, warning: &str) -> (r: String)
    ensures
        r@ == repair_text(copy_result(*copied), warning@),
{
    let mut note = String::new();
    match copied {
        Ok(path) => {
            note.append("原配置已备份到 ");
            note.append(path.as_str());
        },
        Err(message) => {
            note.append("原配置备份失败：");
            note.append(message.as_str());
        },
    }
    let mut r = String::from_str("检测到配置异常，已自动修复。");
    r.append(note.as_str());
    r.append("。");
    r.append(warning);
    proof {
        let empty = Seq::<char>::empty();
        match copy_result(*copied) {
            Ok(path) => {
                assert(empty + "原配置已备份到 "@ + path =~= "原配置已备份到 "@ + path);
            },
            Err(message) => {
                assert(empty + "原配置备份失败："@ + message =~= "原配置备份失败："@ + message);
            },
        }
    }
    r
}

} // verus!
