//! Repeated attempts at a clipboard that other programs may hold.

use crate::text::{decimal, push_decimal};
use vstd::prelude::*;

verus! {

/// How long to wait before another attempt.
pub const RETRY_PAUSE_MS: u64 = 30;

/// How often the clipboard is written before giving up.
pub const WRITE_ATTEMPTS: usize = 5;

/// How often the clipboard is read before giving up.
pub const READ_ATTEMPTS: usize = 3;

/// A bounded series of attempts.
#[derive(Debug, Clone, Copy, PartialEq, Eq, Structural)]
pub struct Attempts {
    pub limit: usize,
    pub made: usize,
}

impl Attempts {
    pub fn new(limit: usize) -> (r: Self)
        ensures
            r.limit == limit,
            r.made == 0,
    {
        Attempts { limit, made: 0 }
    }

    /// Begins the next attempt and says how many milliseconds to wait first:
    /// none before the first, the pause before every other. Nothing is left
    /// once the limit is reached.
    pub fn begin(&mut self) -> (r: Option<u64>)
        ensures
            final(self).limit == old(self).limit,
            r is Some <==> old(self).made < old(self).limit,
            r matches Some(pause) ==> {
                &&& pause == (if old(self).made == 0 {
                    0u64
                } else {
                    RETRY_PAUSE_MS
                })
                &&& final(self).made == old(self).made + 1
            },
            r is None ==> final(self).made == old(self).made,
    {
        if self.made < self.limit {
            let pause: u64 = if self.made == 0 {
                0
            } else {
                RETRY_PAUSE_MS
            };
            self.made = self.made + 1;
            Some(pause)
        } else {
            None
        }
    }
}

/// What is reported when text could not be written.
pub open spec fn text_failure(attempts: nat, last: Option<Seq<char>>) -> Seq<char> {
    "写入系统剪贴板失败（已重试 "@ + decimal(attempts) + " 次）: "@ + (match last {
        Some(detail) => detail,
        None => "未知错误"@,
    })
}

/// What is reported when text could not be written in `attempts` attempts, the
/// last of which failed with `last`.
pub fn text_failure_message(attempts: usize, last: Option<&str>) -> (r: String)
    ensures
        r@ == text_failure(
            attempts as nat,
            match last {
                Some(d) => Some(d@),
                None => None,
            },
        ),
{
    let mut s = "写入系统剪贴板失败（已重试 ".to_owned();
    push_decimal(&mut s, attempts as u128);
    s.push_str(" 次）: ");
    match last {
        Some(detail) => s.push_str(detail),
        None => s.push_str("未知错误"),
    }
    s
}

/// What is reported when files or a picture could not be written.
pub open spec fn data_failure(what: Seq<char>, code: u32) -> Seq<char> {
    "写入"@ + what + "到剪贴板失败（已重试 5 次，最后错误码 "@ + decimal(code as nat) + "）"@
}

fn data_failure_message(what: &str, code: Option<u32>) -> (r: String)
    ensures
        r@ == data_failure(
            what@,
            match code {
                Some(c) => c,
                None => 0,
            },
        ),
{
    let mut s = "写入".to_owned();
    s.push_str(what);
    s.push_str("到剪贴板失败（已重试 5 次，最后错误码 ");
    let c: u32 = match code {
        Some(c) => c,
        None => 0,
    };
    push_decimal(&mut s, c as u128);
    s.push_str("）");
    s
}

/// What is reported when a list of files could not be written; `code` is the
/// last system error.
pub fn files_failure_message(code: Option<u32>) -> (r: String)
    ensures
        r@ == data_failure(
            "文件列表"@,
            match code {
                Some(c) => c,
                None => 0,
            },
        ),
{
    data_failure_message("文件列表", code)
}

/// What is reported when a picture could not be written; `code` is the last
/// system error.
pub fn image_failure_message(code: Option<u32>) -> (r: String)
    ensures
        r@ == data_failure(
            "图像"@,
            match code {
                Some(c) => c,
                None => 0,
            },
        ),
{
    data_failure_message("图像", code)
}

} // verus!
