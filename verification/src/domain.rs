//! Domain rules shared by the watchlist and market-data paths: symbol
//! canonicalization and settings validation, plus the wall-clock reading.

use vstd::prelude::*;

use crate::errors::AppError;
use crate::models::{AppSettings, AppSettingsInput};
use crate::text::{ascii_bytes_to_string, trim_bounds, trim_chars, trim_to_string};

verus! {

/// The uppercase image of a character's code point, folding only ASCII
/// letters, as `char::to_ascii_uppercase` does.
pub open spec fn upper_code(c: char) -> u32 {
    if 'a' <= c && c <= 'z' {
        (c as u32 - 32) as u32
    } else {
        c as u32
    }
}

/// Code points allowed in a canonical symbol: `A`-`Z`, `0`-`9`, `.`, `-`.
pub open spec fn symbol_code_ok(u: u32) -> bool {
    (65 <= u && u <= 90) || (48 <= u && u <= 57) || u == 46 || u == 45
}

/// The trimmed input `t` canonicalizes to a valid symbol: between 1 and 12
/// characters, each in the allowed set once uppercased.
pub open spec fn acceptable_symbol(t: Seq<char>) -> bool {
    1 <= t.len() <= 12 && (forall|i: int|
        0 <= i < t.len() ==> symbol_code_ok(upper_code(#[trigger] t[i])))
}

/// A character with ASCII lowercase letters folded to uppercase.
pub open spec fn upper_char(c: char) -> char {
    upper_code(c) as char
}

/// The canonical form of a raw symbol: trimmed, ASCII-uppercased.
pub open spec fn canonical_symbol(s: Seq<char>) -> Seq<char> {
    trim_chars(s).map_values(|c: char| upper_char(c))
}

/// Validates and canonicalizes a ticker symbol: trims ASCII whitespace,
/// uppercases ASCII letters, and accepts only 1 to 12 characters out of
/// `A`-`Z`, `0`-`9`, `.` and `-`. Returns the canonical symbol, or an
/// `invalid_symbol` error exactly when the trimmed input breaks one of
/// those rules.
pub fn normalize_symbol(input: &str) -> (r: Result<String, AppError>)
    ensures
        ({
            let t = trim_chars(input@);
            match r {
                Ok(out) => acceptable_symbol(t) && out@ == canonical_symbol(input@),
                Err(e) => !acceptable_symbol(t) && e@.code == "invalid_symbol"@ && (t.len() == 0
                    ==> e@.message == "Symbol cannot be empty."@) && (t.len() > 12 ==> e@.message
                    == "Symbol is too long."@) && (1 <= t.len() <= 12 ==> e@.message
                    == "Symbol contains invalid characters."@),
            }
        }),
{
    let (start, end) = trim_bounds(input);
    let ghost t = trim_chars(input@);
    if end - start == 0 {
        return Err(AppError::validation("invalid_symbol", "Symbol cannot be empty."));
    }
    if end - start > 12 {
        return Err(AppError::validation("invalid_symbol", "Symbol is too long."));
    }
    let mut bytes: Vec<u8> = Vec::new();
    let mut i = start;
    while i < end
        invariant
            start <= i <= end,
            end <= input@.len(),
            1 <= end - start <= 12,
            t == trim_chars(input@),
            t == input@.subrange(start as int, end as int),
            bytes@.len() == i - start,
            forall|j: int| 0 <= j < bytes@.len() ==> #[trigger] bytes@[j] < 128,
            forall|j: int|
                0 <= j < bytes@.len() ==> (#[trigger] bytes@[j]) as u32 == upper_code(t[j]),
            forall|j: int|
                0 <= j < bytes@.len() ==> symbol_code_ok(upper_code(#[trigger] t[j])),
        decreases end - i,
    {
        let c = input.get_char(i);
        let u = c as u32;
        let up = if 97 <= u && u <= 122 {
            u - 32
        } else {
            u
        };
        proof {
            assert(t[i - start] == input@[i as int]);
            assert(up == upper_code(t[i - start]));
        }
        let ok = (65 <= up && up <= 90) || (48 <= up && up <= 57) || up == 46 || up == 45;
        if !ok {
            proof {
                let k = i - start;
                assert(!symbol_code_ok(upper_code(t[k])));
                assert(!acceptable_symbol(t)) by {
                    if acceptable_symbol(t) {
                        assert(symbol_code_ok(upper_code(t[k])));
                    }
                }
            }
            return Err(
                AppError::validation("invalid_symbol", "Symbol contains invalid characters."),
            );
        }
        bytes.push(up as u8);
        i = i + 1;
    }
    let out = ascii_bytes_to_string(bytes);
    proof {
        assert(forall|j: int|
            0 <= j < out@.len() ==> (#[trigger] out@[j]) as u32 == bytes@[j]) by {
            assert(forall|j: int|
                0 <= j < bytes@.len() ==> ((#[trigger] bytes@[j]) as char) as u32 == bytes@[j]);
        }
        assert(forall|j: int|
            0 <= j < t.len() ==> (#[trigger] out@[j]) as u32 == upper_code(t[j]));
        assert(acceptable_symbol(t));
        assert(out@ =~= canonical_symbol(input@)) by {
            assert forall|j: int| 0 <= j < t.len() implies #[trigger] out@[j] == upper_char(
                t[j],
            ) by {
                vstd::utf8::char_u32_cast(out@[j], upper_code(t[j]));
            }
        }
    }
    Ok(out)
}

/// The submitted refresh interval lies in the accepted window of 15 to
/// 3600 seconds.
pub open spec fn auto_refresh_in_range(secs: u32) -> bool {
    15 <= secs && secs <= 3600
}

/// Validates submitted settings: the API key must be at least 8 characters
/// once trimmed, and the refresh interval must lie within its window.
/// Returns the settings with the trimmed key, or an `invalid_settings`
/// error exactly when one of those rules breaks.
pub fn validate_settings(input: AppSettingsInput) -> (r: Result<AppSettings, AppError>)
    ensures
        ({
            let k = trim_chars(input.api_key@);
            match r {
                Ok(s) => k.len() >= 8 && auto_refresh_in_range(input.auto_refresh_seconds)
                    && s@.api_key == k && s@.provider == input@.provider && s@.default_range
                    == input@.default_range && s@.auto_refresh_seconds
                    == input@.auto_refresh_seconds && s@.notifications_enabled
                    == input@.notifications_enabled,
                Err(e) => (k.len() < 8 || !auto_refresh_in_range(input.auto_refresh_seconds))
                    && e@.code == "invalid_settings"@ && (k.len() == 0 ==> e@.message
                    == "API key is required."@) && (0 < k.len() < 8 ==> e@.message
                    == "API key looks too short."@) && (k.len() >= 8 ==> e@.message
                    == "Auto refresh must be between 15 and 3600 seconds."@),
            }
        }),
{
    let api_key = trim_to_string(input.api_key.as_str());
    let key_len = api_key.as_str().unicode_len();
    if key_len == 0 {
        return Err(AppError::validation("invalid_settings", "API key is required."));
    }
    if key_len < 8 {
        return Err(AppError::validation("invalid_settings", "API key looks too short."));
    }
    if input.auto_refresh_seconds < 15 || input.auto_refresh_seconds > 3600 {
        return Err(
            AppError::validation(
                "invalid_settings",
                "Auto refresh must be between 15 and 3600 seconds.",
            ),
        );
    }
    Ok(
        AppSettings {
            provider: input.provider,
            api_key,
            default_range: input.default_range,
            auto_refresh_seconds: input.auto_refresh_seconds,
            notifications_enabled: input.notifications_enabled,
        },
    )
}

/// Relies on `std::time::SystemTime::now` and `duration_since`: whole
/// seconds since the Unix epoch, or zero when the clock reads earlier than
/// the epoch. The result depends on the wall clock, so nothing further is
/// promised of it.
#[verifier::external_body]
pub fn unix_timestamp_secs() -> u64 {
    std::time::SystemTime::now()
        .duration_since(std::time::UNIX_EPOCH)
        .map(|duration| duration.as_secs())
        .unwrap_or(0)
}

} // verus!
