//! The log: how much of it there is, and what a line looks like.
use vstd::prelude::*;
use vstd::string::*;

verus! {

#[derive(Clone, Copy, Debug, PartialEq, Eq, Structural)]
pub enum LogLevel {
    Info,
    Debug,
}

/// Kernel activity is logged for debugging only.
pub fn default_level(kernel_activity: bool) -> (level: LogLevel)
    ensures
        level == (if kernel_activity {
            LogLevel::Debug
        } else {
            LogLevel::Info
        }),
{
    if kernel_activity {
        LogLevel::Debug
    } else {
        LogLevel::Info
    }
}

/// A line of the log.
pub fn log_line(time: &str, level: &str, message: &str) -> (r: String)
    ensures
        r@ == time@ + " ["@ + level@ + "] "@ + message@,
{
    time.to_owned().concat(" [").concat(level).concat("] ").concat(message)
}

/// `true` or `false`.
pub open spec fn flag_text(flag: bool) -> Seq<char> {
    if flag {
        "true"@
    } else {
        "false"@
    }
}

fn flag_name(flag: bool) -> (r: &'static str)
    ensures
        r@ == flag_text(flag),
{
    if flag {
        "true"
    } else {
        "false"
    }
}

/// The first line of a run.
pub fn greeting(disable_tui: bool, kernel_activity: bool) -> (r: String)
    ensures
        r@ == "starting bogoforge (disable_tui="@ + flag_text(disable_tui) + ", kernel_activity="@
            + flag_text(kernel_activity) + ")"@,
{
    "starting bogoforge (disable_tui=".to_owned().concat(flag_name(disable_tui)).concat(
        ", kernel_activity=",
    ).concat(flag_name(kernel_activity)).concat(")")
}

/// Law: the log is detailed exactly where kernel activity is asked for.
pub proof fn law_kernel_activity_is_logged_on_demand(kernel_activity: bool, level: LogLevel)
    requires
        call_ensures(default_level, (kernel_activity,), level),
    ensures
        level == LogLevel::Debug <==> kernel_activity,
{
}

/// Law: the first line tells both settings by their words.
pub proof fn law_greeting_tells_the_settings(disable_tui: bool, kernel_activity: bool, r: String)
    requires
        call_ensures(greeting, (disable_tui, kernel_activity), r),
    ensures
        r@ == "starting bogoforge (disable_tui="@ + (if disable_tui {
            "true"@
        } else {
            "false"@
        }) + ", kernel_activity="@ + (if kernel_activity {
            "true"@
        } else {
            "false"@
        }) + ")"@,
{
}

} // verus!
