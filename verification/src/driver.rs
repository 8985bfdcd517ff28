//! What the guided USB driver install reports: the installer's exit code
//! mapped to the message the user sees. Writing and running the installer
//! script is the caller's part (and only possible on Windows).
use vstd::prelude::*;
use crate::text::{decimal, decimal_chars, string_of, push_str, push_all, chars_of};

verus! {

/// A signed number in decimal, with a leading `-` when negative.
pub open spec fn signed_decimal(n: int) -> Seq<char> {
    if n < 0 { "-"@ + decimal((-n) as nat) } else { decimal(n as nat) }
}

/// The message for each outcome of the installer (`None`: it was killed).
pub open spec fn install_message(code: Option<i32>) -> Option<Seq<char>> {
    match code {
        Some(0) => None,
        Some(1223) => Some("已取消权限提升，驱动未安装。"@),
        Some(10) => Some("无法从 GitHub 获取 Zadig 下载地址，请检查网络连接。"@),
        Some(11) => Some("下载 Zadig 失败，请检查网络连接后重试。"@),
        Some(12) => Some("下载的安装程序签名验证失败，出于安全考虑已取消安装。"@),
        Some(c) => Some("驱动安装向导异常退出（代码 "@ + signed_decimal(c as int) + "）。"@),
        None => Some("安装进程被终止。"@),
    }
}

fn lit(s: &str) -> (r: String)
    ensures
        r@ == s@,
{
    string_of(&chars_of(s))
}

/// The result of an installer run that ended with exit code `code`
/// (`None` when it was terminated without one): success on 0, otherwise
/// the matching message.
pub fn install_outcome(code: Option<i32>) -> (r: Result<(), String>)
    ensures
        match install_message(code) {
            None => r is Ok,
            Some(m) => r matches Err(e) && e@ == m,
        },
{
    match code {
        Some(0) => Ok(()),
        Some(1223) => Err(lit("已取消权限提升，驱动未安装。")),
        Some(10) => Err(lit("无法从 GitHub 获取 Zadig 下载地址，请检查网络连接。")),
        Some(11) => Err(lit("下载 Zadig 失败，请检查网络连接后重试。")),
        Some(12) => Err(lit("下载的安装程序签名验证失败，出于安全考虑已取消安装。")),
        Some(c) => {
            let mut v: Vec<char> = Vec::new();
            push_str(&mut v, "驱动安装向导异常退出（代码 ");
            if c < 0 {
                push_str(&mut v, "-");
                let m: u64 = (-(c as i64)) as u64;
                push_all(&mut v, &decimal_chars(m));
            } else {
                push_all(&mut v, &decimal_chars(c as u64));
            }
            push_str(&mut v, "）。");
            proof {
                assert(v@ =~= "驱动安装向导异常退出（代码 "@ + signed_decimal(c as int) + "）。"@);
            }
            Err(string_of(&v))
        },
        None => Err(lit("安装进程被终止。")),
    }
}

/// Where the installer cannot run: the install is refused.
pub fn install() -> (r: Result<(), String>)
    ensures
        r matches Err(e) && e@ == "此功能仅支持 Windows。"@,
{
    Err(lit("此功能仅支持 Windows。"))
}

} // verus!
