use stockwatch::domain::{normalize_symbol, unix_timestamp_secs, validate_settings};
use stockwatch::models::{AppProvider, AppSettingsInput, TimeRange, WatchlistItem};
use stockwatch::watchlist::{add_watchlist_symbol, remove_watchlist_symbol};

fn sample_input(api_key: &str, auto_refresh_seconds: u32) -> AppSettingsInput {
    AppSettingsInput {
        provider: AppProvider::Twelvedata,
        api_key: api_key.to_string(),
        default_range: TimeRange::OneMonth,
        auto_refresh_seconds,
        notifications_enabled: true,
    }
}

#[test]
fn validate_settings_rejects_empty_api_key() {
    let result = validate_settings(sample_input(" ", 60));
    assert!(result.is_err());
}

#[test]
fn validate_settings_rejects_short_api_key() {
    let result = validate_settings(sample_input("abc123", 60));
    assert!(result.is_err());
}

#[test]
fn validate_settings_rejects_invalid_refresh_interval() {
    let result = validate_settings(sample_input("valid-key-123", 5));
    assert!(result.is_err());
}

#[test]
fn validate_settings_trims_and_accepts_valid_input() {
    let result = validate_settings(sample_input("  valid-key-123  ", 60));
    assert!(result.is_ok());
    assert_eq!(result.unwrap().api_key, "valid-key-123");
}

#[test]
fn validate_settings_error_details() {
    let empty = validate_settings(sample_input("   ", 60)).unwrap_err();
    assert_eq!(empty.code, "invalid_settings");
    assert_eq!(empty.message, "API key is required.");

    let short = validate_settings(sample_input("abc", 60)).unwrap_err();
    assert_eq!(short.code, "invalid_settings");
    assert_eq!(short.message, "API key looks too short.");

    let interval = validate_settings(sample_input("valid-key-123", 3601)).unwrap_err();
    assert_eq!(interval.code, "invalid_settings");
    assert_eq!(interval.message, "Auto refresh must be between 15 and 3600 seconds.");
}

#[test]
fn normalize_symbol_trims_and_upcases() {
    let symbol = normalize_symbol(" aapl ").unwrap();
    assert_eq!(symbol, "AAPL");
}

#[test]
fn normalize_symbol_rejects_invalid_characters() {
    let result = normalize_symbol("AAPL$");
    assert!(result.is_err());
}

#[test]
fn normalize_symbol_error_details() {
    let empty = normalize_symbol("   ").unwrap_err();
    assert_eq!(empty.code, "invalid_symbol");
    assert_eq!(empty.message, "Symbol cannot be empty.");

    let long = normalize_symbol("ABCDEFGHIJKLM").unwrap_err();
    assert_eq!(long.code, "invalid_symbol");
    assert_eq!(long.message, "Symbol is too long.");

    let bad = normalize_symbol("AA PL").unwrap_err();
    assert_eq!(bad.code, "invalid_symbol");
    assert_eq!(bad.message, "Symbol contains invalid characters.");
}

#[test]
fn normalize_symbol_accepts_dots_and_dashes() {
    assert_eq!(normalize_symbol("brk.b").unwrap(), "BRK.B");
    assert_eq!(normalize_symbol("xe-t4").unwrap(), "XE-T4");
}

#[test]
fn unix_timestamp_is_past_epoch() {
    assert!(unix_timestamp_secs() > 1_000_000_000);
}

fn row(symbol: &str) -> WatchlistItem {
    WatchlistItem { symbol: symbol.to_string(), display_name: None, pinned: None }
}

#[test]
fn add_symbol_appends_canonical_row() {
    let wl = vec![row("AAPL")];
    let out = add_watchlist_symbol(&wl, " msft ").unwrap();
    assert_eq!(out.len(), 2);
    assert_eq!(out[0].symbol, "AAPL");
    assert_eq!(out[1].symbol, "MSFT");
    assert!(out[1].display_name.is_none());
    assert!(out[1].pinned.is_none());
}

#[test]
fn add_symbol_rejects_duplicate() {
    let wl = vec![row("AAPL")];
    let err = add_watchlist_symbol(&wl, "aapl").unwrap_err();
    assert_eq!(err.code, "symbol_exists");
    assert_eq!(err.message, "AAPL is already in your watchlist.");
}

#[test]
fn add_symbol_rejects_invalid_input() {
    let wl = vec![row("AAPL")];
    let err = add_watchlist_symbol(&wl, "no way!").unwrap_err();
    assert_eq!(err.code, "invalid_symbol");
}

#[test]
fn remove_symbol_drops_the_row() {
    let wl = vec![row("AAPL"), row("MSFT")];
    let out = remove_watchlist_symbol(&wl, "aapl").unwrap();
    assert_eq!(out.len(), 1);
    assert_eq!(out[0].symbol, "MSFT");
}

#[test]
fn remove_symbol_rejects_missing_symbol() {
    let wl = vec![row("AAPL")];
    let err = remove_watchlist_symbol(&wl, "msft").unwrap_err();
    assert_eq!(err.code, "symbol_not_found");
    assert_eq!(err.message, "MSFT is not in your watchlist.");
}
