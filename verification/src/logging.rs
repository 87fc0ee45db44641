//! The log: which settings it goes by, what is written to it, and where.
use crate::clock::{is_log_time, is_log_time_now, log_time};
use crate::init::{Config, LOG_DEBUG, LOG_INFO, LOG_TRACE};
use crate::text::{decimal, decimal_text};
use vstd::prelude::*;

verus! {

/// Sets what the whole program goes by. Only the first time counts.
pub fn set_global_config<T>(slot: &mut Option<T>, cfg: T)
    ensures
        *final(slot) == (match *old(slot) {
            Some(first) => Some(first),
            None => Some(cfg),
        }),
{
    if slot.is_none() {
        *slot = Some(cfg);
    }
}

/// What the whole program goes by, if it has been set.
pub fn get_global_config<T>(slot: &Option<T>) -> (r: Option<&T>)
    ensures
        match r {
            Some(cfg) => *slot == Some(*cfg),
            None => *slot is None,
        },
{
    match slot {
        Some(cfg) => Some(cfg),
        None => None,
    }
}

/// Where a line of the log is written.
pub enum LogTarget {
    /// Nowhere.
    Nowhere,
    /// To the standard output.
    Stdout,
    /// To the end of a file.
    File(String),
}

/// Where a line of the log is written.
#[verifier::ext_equal]
pub enum TargetView {
    Nowhere,
    Stdout,
    File(Seq<char>),
}

impl View for LogTarget {
    type V = TargetView;

    open spec fn view(&self) -> TargetView {
        match self {
            LogTarget::Nowhere => TargetView::Nowhere,
            LogTarget::Stdout => TargetView::Stdout,
            LogTarget::File(path) => TargetView::File(path@),
        }
    }
}

/// Where a line of some level is written: nowhere if its level is above the one that is
/// set, and else to the file that is set or to the standard output. As long as nothing is
/// set, only lines of the lowest level are written.
pub open spec fn target_of(level: u8, config: Option<Config>) -> TargetView {
    match config {
        Some(c) => if level > c.log_level {
            TargetView::Nowhere
        } else {
            match c.log_file {
                Some(path) => TargetView::File(path@),
                None => TargetView::Stdout,
            }
        },
        None => if level > 0 {
            TargetView::Nowhere
        } else {
            TargetView::Stdout
        },
    }
}

/// Where a line of some level is written.
pub fn log_target(level: u8, config: Option<&Config>) -> (r: LogTarget)
    ensures
        r@ == target_of(
            level,
            match config {
                Some(c) => Some(*c),
                None => None,
            },
        ),
{
    match config {
        Some(c) => {
            if level > c.log_level {
                LogTarget::Nowhere
            } else {
                match &c.log_file {
                    Some(path) => LogTarget::File(path.as_str().to_owned()),
                    None => LogTarget::Stdout,
                }
            }
        },
        None => {
            if level > 0 {
                LogTarget::Nowhere
            } else {
                LogTarget::Stdout
            }
        },
    }
}

/// A line of the log: a time and a message.
pub open spec fn line_text(time: Seq<char>, message: Seq<char>) -> Seq<char> {
    time + " "@ + message
}

/// A line of the log with a time.
pub fn log_line_at(time: &str, message: &str) -> (r: String)
    ensures
        r@ == line_text(time@, message@),
{
    let mut line = time.to_owned();
    line.push_str(" ");
    line.push_str(message);
    line
}

/// Whether a line is a message after the time in Japan, for some time that the clock shows.
pub open spec fn is_log_line(line: Seq<char>, message: Seq<char>) -> bool {
    exists|time: Seq<char>|
        is_log_time_now(time) && is_log_time(time) && line == #[trigger] line_text(time, message)
}

/// A line of the log now: the time in Japan and the message.
pub fn log_line(message: &str) -> (r: String)
    ensures
        is_log_line(r@, message@),
{
    let time = log_time();
    log_line_at(time.as_str(), message)
}

/// The name of a level of the log.
pub open spec fn level_name(level: u8) -> Seq<char> {
    if level == LOG_INFO {
        "info"@
    } else if level == LOG_TRACE {
        "trace"@
    } else if level == LOG_DEBUG {
        "debug"@
    } else {
        "unknown("@ + decimal(level as nat) + ")"@
    }
}

/// The name of a level of the log.
pub fn log_level_name(level: u8) -> (r: String)
    ensures
        r@ == level_name(level),
{
    if level == LOG_INFO {
        "info".to_owned()
    } else if level == LOG_TRACE {
        "trace".to_owned()
    } else if level == LOG_DEBUG {
        "debug".to_owned()
    } else {
        let mut name = "unknown(".to_owned();
        name.push_str(decimal_text(level as u64).as_str());
        name.push_str(")");
        name
    }
}

/// A line is logged if and only if its level is not above the one that is set, in the file
/// that is set or else on the standard output; before anything is set only lines of the lowest
/// level are. So a level that logs more logs all that a lower one does.
pub proof fn law_levels_are_kept(level: u8, config: Config)
    ensures
        target_of(level, Some(config)) is Nowhere <==> level > config.log_level,
        level <= config.log_level ==> (config.log_file matches Some(path) ==> target_of(
            level,
            Some(config),
        ) == TargetView::File(path@)),
        level <= config.log_level && config.log_file is None ==> target_of(level, Some(config))
            is Stdout,
        target_of(level, None) is Stdout <==> level == LOG_INFO,
        LOG_INFO < LOG_TRACE < LOG_DEBUG,
        level_name(LOG_INFO) == "info"@ && level_name(LOG_TRACE) == "trace"@ && level_name(
            LOG_DEBUG,
        ) == "debug"@,
{
}

/// A line of the log has the time before the message and a blank between them.
pub proof fn law_line_holds_the_message(time: Seq<char>, message: Seq<char>)
    ensures
        line_text(time, message) == time + seq![' '] + message,
{
    reveal_strlit(" ");
    assert(" "@ =~= seq![' ']);
}

} // verus!
