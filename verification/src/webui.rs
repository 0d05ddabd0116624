//! Cross-referencing with a companion web UI: name normalisation for
//! matching, human-readable elapsed-time formatting for usage timestamps,
//! and the privacy notice shown before integration is enabled.

use vstd::prelude::*;
use vstd::string::*;
use crate::num::{div_trunc, i64_of_text, int_text, i64_to_string, parse_i64};
use crate::text::{
    contains_seq, contains_sub, lower_of, lowercase, strip_prefix, strip_prefix_str, trim, trim_of,
};

verus! {

/// Settings for the optional companion web UI integration.
pub struct OpenWebUIConfig {
    pub data_path: Option<String>,
    pub enabled: bool,
    pub privacy_mode: bool,
}

/// The normalised form of a model name for matching across tools: the
/// lower-cased, trimmed name with any `ollama/`, `local/` or `models/`
/// prefix stripped, in that order.
pub open spec fn clean_name_of(n: Seq<char>) -> Seq<char> {
    strip_prefix(
        strip_prefix(strip_prefix(trim_of(lower_of(n)), "ollama/"@), "local/"@),
        "models/"@,
    )
}

/// Normalises a model name for matching between the runtime and the
/// companion web UI.
pub fn clean_model_name_for_matching(model_name: &str) -> (r: String)
    ensures
        r@ == clean_name_of(model_name@),
{
    let lowered = lowercase(model_name);
    let t = trim(lowered.as_str());
    let s1 = strip_prefix_str(t, "ollama/");
    let s2 = strip_prefix_str(s1, "local/");
    let s3 = strip_prefix_str(s2, "models/");
    String::from_str(s3)
}

/// Whether a container name, lower-cased, marks a container as running
/// the companion web UI.
pub open spec fn webui_container_name(n: Seq<char>) -> bool {
    contains_seq(lower_of(n), "webui"@) || contains_seq(lower_of(n), "open-webui"@)
}

/// Whether a running container's name points at the companion web UI.
pub fn is_webui_container_name(container_name: &str) -> (r: bool)
    ensures
        r == webui_container_name(container_name@),
{
    let lowered = lowercase(container_name);
    contains_sub(lowered.as_str(), "webui") || contains_sub(lowered.as_str(), "open-webui")
}

/// Whether this many seconds since the Unix epoch is a UTC time the
/// timestamp library can represent.
pub uninterp spec fn ts_representable(secs: int) -> bool;

/// Relies on chrono::DateTime::from_timestamp: whether the timestamp is a
/// representable UTC time.  A representable timestamp lies within the
/// day-range bound the crate checks before building a date.
#[verifier::external_body]
fn timestamp_in_range(secs: i64) -> (r: bool)
    ensures
        r == ts_representable(secs as int),
        r ==> -200_000_000_000_000 <= secs <= 200_000_000_000_000,
{
    chrono::DateTime::<chrono::Utc>::from_timestamp(secs, 0).is_some()
}

/// Relies on chrono::Utc::now: the current time as Unix seconds, always a
/// representable UTC time; its value depends on the clock, so nothing
/// more is promised.
#[verifier::external_body]
fn now_unix_timestamp() -> (r: i64)
    ensures
        ts_representable(r as int),
        -200_000_000_000_000 <= r <= 200_000_000_000_000,
{
    chrono::Utc::now().timestamp()
}

/// The elapsed-time phrase for a usage timestamp against the clock:
/// minutes under an hour, hours under a day, then days, weeks, months and
/// years, with day, week, month and year counts truncated downwards.
pub open spec fn elapsed_text_of(ts: int, now: int) -> Seq<char> {
    let diff = now - ts;
    let d = div_trunc(diff, 86400);
    if d == 0 {
        let h = div_trunc(diff, 3600);
        if h == 0 {
            int_text(div_trunc(diff, 60)) + " minutes ago"@
        } else {
            int_text(h) + " hours ago"@
        }
    } else if d == 1 {
        "1 day ago"@
    } else if d < 7 {
        int_text(d) + " days ago"@
    } else if d < 30 {
        let w = d / 7;
        int_text(w) + (if w > 1 {
            " weeks ago"@
        } else {
            " week ago"@
        })
    } else if d < 365 {
        let mo = d / 30;
        int_text(mo) + (if mo > 1 {
            " months ago"@
        } else {
            " month ago"@
        })
    } else {
        let y = d / 365;
        int_text(y) + (if y > 1 {
            " years ago"@
        } else {
            " year ago"@
        })
    }
}

/// Formats the elapsed time between a timestamp and the given clock
/// reading.
pub fn format_elapsed(ts: i64, now: i64) -> (r: String)
    requires
        -200_000_000_000_000 <= ts <= 200_000_000_000_000,
        -200_000_000_000_000 <= now <= 200_000_000_000_000,
    ensures
        r@ == elapsed_text_of(ts as int, now as int),
{
    let diff = now - ts;
    let d = crate::num::div_trunc_i64(diff, 86400);
    if d == 0 {
        let h = crate::num::div_trunc_i64(diff, 3600);
        if h == 0 {
            i64_to_string(crate::num::div_trunc_i64(diff, 60)).concat(" minutes ago")
        } else {
            i64_to_string(h).concat(" hours ago")
        }
    } else if d == 1 {
        String::from_str("1 day ago")
    } else if d < 7 {
        i64_to_string(d).concat(" days ago")
    } else if d >= 7 && d < 30 {
        let w = crate::num::div_trunc_i64(d, 7);
        if w > 1 {
            i64_to_string(w).concat(" weeks ago")
        } else {
            i64_to_string(w).concat(" week ago")
        }
    } else if d >= 30 && d < 365 {
        let mo = crate::num::div_trunc_i64(d, 30);
        if mo > 1 {
            i64_to_string(mo).concat(" months ago")
        } else {
            i64_to_string(mo).concat(" month ago")
        }
    } else {
        let y = crate::num::div_trunc_i64(d, 365);
        if y > 1 {
            i64_to_string(y).concat(" years ago")
        } else {
            i64_to_string(y).concat(" year ago")
        }
    }
}

/// Formats a usage timestamp (Unix seconds as text) as an elapsed-time
/// phrase against the current clock; anything unreadable or out of range
/// comes back as the unknown marker.
pub fn format_last_used_time(timestamp: &str) -> (r: String)
    ensures
        match i64_of_text(timestamp@) {
            Some(v) => if ts_representable(v) {
                exists|now: int|
                    -200_000_000_000_000 <= now <= 200_000_000_000_000 && r@
                        == #[trigger] elapsed_text_of(v, now)
            } else {
                r@ == "Unknown"@
            },
            None => r@ == "Unknown"@,
        },
{
    match parse_i64(timestamp) {
        Some(ts) => {
            if timestamp_in_range(ts) {
                let now = now_unix_timestamp();
                format_elapsed(ts, now)
            } else {
                String::from_str("Unknown")
            }
        },
        None => String::from_str("Unknown"),
    }
}

/// The text of the privacy notice shown before web UI integration is
/// enabled.
pub open spec fn privacy_notice_text() -> Seq<char> {
    "\n\u{1F512} Privacy Protection Notice\n\nOpenWebUI integration has been detected but is currently disabled\nfor maximum privacy protection.\n\n\u{2705} What we would access (with your consent):\n\u{2022} Model usage statistics only\n\u{2022} No chat content or conversations\n\u{2022} Frequency of model usage\n\u{2022} Last used timestamps\n\n\u{274C} What we never access:\n\u{2022} Chat conversations or messages\n\u{2022} User data or personal information\n\u{2022} API keys or authentication tokens\n\u{2022} Any content of your interactions\n\n\u{1F6E1}\u{FE0F} Security measures:\n\u{2022} Database encryption by default\n\u{2022} Local processing only\n\u{2022} Secure cleanup of temporary files\n\u{2022} No data transmission to external services\n\n\u{1F5FA}\u{FE0F} Future roadmap (currently disabled):\n\u{2022} Chat browsing and search\n\u{2022} Conversation analysis tools\n\u{2022} Knowledge base extraction\n\u{2022} Usage analytics dashboard\n\nWould you like to enable OpenWebUI integration with these privacy protections?\n"@
}

/// The privacy notice for the companion web UI integration.
pub fn get_privacy_notice() -> (r: String)
    ensures
        r@ == privacy_notice_text(),
{
    String::from_str(
        "\n\u{1F512} Privacy Protection Notice\n\nOpenWebUI integration has been detected but is currently disabled\nfor maximum privacy protection.\n\n\u{2705} What we would access (with your consent):\n\u{2022} Model usage statistics only\n\u{2022} No chat content or conversations\n\u{2022} Frequency of model usage\n\u{2022} Last used timestamps\n\n\u{274C} What we never access:\n\u{2022} Chat conversations or messages\n\u{2022} User data or personal information\n\u{2022} API keys or authentication tokens\n\u{2022} Any content of your interactions\n\n\u{1F6E1}\u{FE0F} Security measures:\n\u{2022} Database encryption by default\n\u{2022} Local processing only\n\u{2022} Secure cleanup of temporary files\n\u{2022} No data transmission to external services\n\n\u{1F5FA}\u{FE0F} Future roadmap (currently disabled):\n\u{2022} Chat browsing and search\n\u{2022} Conversation analysis tools\n\u{2022} Knowledge base extraction\n\u{2022} Usage analytics dashboard\n\nWould you like to enable OpenWebUI integration with these privacy protections?\n",
    )
}

} // verus!
