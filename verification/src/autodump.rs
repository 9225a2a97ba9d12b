//! The automatic dumps of a telemetry build: where they go, whether they
//! happen, and how often.
//!
//! A process writes its registry periodically, so that a killed process
//! leaves its last snapshot behind, and once more at exit.  Both are
//! governed by the environment:
//!
//! * `CAPTRACK_AUTODUMP` = `0`, `off`, `false` or `no` (any case, spaces
//!   around ignored) turns them off;
//! * `CAPTRACK_AUTODUMP_INTERVAL_MS` sets the period, 500 ms by default;
//!   `0` leaves only the dump at exit;
//! * `CAPTRACK_DUMP_DIR` sets the directory, `target/captrack-pgo` by
//!   default.  The file is `profile-<executable stem>.json`.
use vstd::prelude::*;
use crate::options::{normalized, normalize_text};
use crate::paths::{join_spec, path_join};
use crate::reservoir::opt_text;
use crate::text::{chars_of, parse_u64_chars, parse_u64_spec, push_str, string_of, trim, trim_vec};

verus! {

/// The period of the dumps when none is set, in milliseconds.
pub const DEFAULT_INTERVAL_MS: u64 = 500;

/// Whether a value of `CAPTRACK_AUTODUMP` (`None`: unset) leaves the dumps
/// on.
pub open spec fn enabled_spec(var: Option<Seq<char>>) -> bool {
    match var {
        None => true,
        Some(v) => {
            let n = normalized(v);
            !(n == "0"@ || n == "off"@ || n == "false"@ || n == "no"@)
        },
    }
}

/// Whether the automatic dumps are on, for a value of `CAPTRACK_AUTODUMP`.
pub fn autodump_enabled(var: Option<&str>) -> (r: bool)
    ensures
        r == enabled_spec(opt_text(var)),
{
    match var {
        None => true,
        Some(v) => {
            let n = normalize_text(v);
            let off = crate::text::chars_eq(&n, &chars_of("0")) || crate::text::chars_eq(
                &n,
                &chars_of("off"),
            ) || crate::text::chars_eq(&n, &chars_of("false")) || crate::text::chars_eq(
                &n,
                &chars_of("no"),
            );
            !off
        },
    }
}

/// The period named by a value of `CAPTRACK_AUTODUMP_INTERVAL_MS`: the
/// trimmed value as an integer, else the default.
pub open spec fn interval_spec(var: Option<Seq<char>>) -> u64 {
    match var {
        None => DEFAULT_INTERVAL_MS,
        Some(v) => match parse_u64_spec(trim(v)) {
            Some(n) => n,
            None => DEFAULT_INTERVAL_MS,
        },
    }
}

/// The dump period in milliseconds, for a value of
/// `CAPTRACK_AUTODUMP_INTERVAL_MS`.
pub fn autodump_interval_ms(var: Option<&str>) -> (r: u64)
    ensures
        r == interval_spec(opt_text(var)),
{
    match var {
        None => DEFAULT_INTERVAL_MS,
        Some(v) => {
            let t = trim_vec(&chars_of(v));
            match parse_u64_chars(&t) {
                Some(n) => n,
                None => DEFAULT_INTERVAL_MS,
            }
        },
    }
}

/// The dump file: `profile-<stem>.json` in the directory `dir` (default
/// `target/captrack-pgo`), with `stem` the executable's file stem (default
/// `unknown`).
pub open spec fn dump_path_spec(dir: Option<Seq<char>>, stem: Option<Seq<char>>) -> Seq<char> {
    let d = match dir {
        Some(x) => x,
        None => "target/captrack-pgo"@,
    };
    let s = match stem {
        Some(x) => x,
        None => "unknown"@,
    };
    join_spec(d, "profile-"@ + s + ".json"@)
}

/// The automatic dump's file, for the value of `CAPTRACK_DUMP_DIR` and the
/// file stem of the running executable (`None` when either is unknown).
pub fn default_dump_path(dir: Option<&str>, stem: Option<&str>) -> (r: String)
    ensures
        r@ == dump_path_spec(opt_text(dir), opt_text(stem)),
{
    let mut name: Vec<char> = Vec::new();
    push_str(&mut name, "profile-");
    match stem {
        Some(s) => push_str(&mut name, s),
        None => push_str(&mut name, "unknown"),
    }
    push_str(&mut name, ".json");
    let n = string_of(&name);
    match dir {
        Some(d) => path_join(d, n.as_str()),
        None => path_join("target/captrack-pgo", n.as_str()),
    }
}

/// What the exit hook does: the file to dump to, or `None` when the dumps
/// are off.
pub fn captrack_autodump_on_exit(enabled: Option<&str>, dir: Option<&str>, stem: Option<&str>) -> (r: Option<String>)
    ensures
        match r {
            Some(p) => enabled_spec(opt_text(enabled)) && p@ == dump_path_spec(opt_text(dir), opt_text(stem)),
            None => !enabled_spec(opt_text(enabled)),
        },
{
    if !autodump_enabled(enabled) {
        return None;
    }
    Some(default_dump_path(dir, stem))
}

/// What the start hook does: the period of the background dumps, or
/// `None` when there are none (dumps off, or a period of zero).
pub fn captrack_autodump_ticker(enabled: Option<&str>, interval: Option<&str>) -> (r: Option<u64>)
    ensures
        match r {
            Some(ms) => enabled_spec(opt_text(enabled)) && ms == interval_spec(opt_text(interval))
                && ms > 0,
            None => !enabled_spec(opt_text(enabled)) || interval_spec(opt_text(interval)) == 0,
        },
{
    if !autodump_enabled(enabled) {
        return None;
    }
    let ms = autodump_interval_ms(interval);
    if ms == 0 {
        None
    } else {
        Some(ms)
    }
}

} // verus!
