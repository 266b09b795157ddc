use pinger::config::{
    default_output_name, filename_entry, float_entry, int_entry, normalize_output_path,
    parse_output_kind, parse_seconds_millis, OutputKind,
};

#[test]
fn int_entry_defaults_and_bounds() {
    assert_eq!(int_entry("", None, 1), (None, false));
    assert_eq!(int_entry("", Some(56), 0), (Some(56), false));
    assert_eq!(int_entry("7", None, 1), (Some(7), false));
    assert_eq!(int_entry("0", None, 1), (None, true)); // below the least value
    assert_eq!(int_entry("abc", Some(56), 0), (Some(56), true));
    assert_eq!(int_entry("12x", None, 1), (None, true));
    assert_eq!(int_entry("99999999999999999999999", None, 1), (None, true)); // too large
}

#[test]
fn seconds_entries_read_at_millisecond_resolution() {
    assert_eq!(parse_seconds_millis("4"), Some(4000));
    assert_eq!(parse_seconds_millis("4.5"), Some(4500));
    assert_eq!(parse_seconds_millis("0.25"), Some(250));
    assert_eq!(parse_seconds_millis(".5"), Some(500));
    assert_eq!(parse_seconds_millis("4."), Some(4000));
    assert_eq!(parse_seconds_millis("1.2345"), Some(1234)); // beyond a millisecond is dropped
    assert_eq!(parse_seconds_millis(""), None);
    assert_eq!(parse_seconds_millis("."), None);
    assert_eq!(parse_seconds_millis("-1"), None);
    assert_eq!(parse_seconds_millis("4.5.6"), None);
    assert_eq!(parse_seconds_millis("abc"), None);
}

#[test]
fn float_entry_falls_back_to_the_default() {
    assert_eq!(float_entry("", 4000), (4000, false));
    assert_eq!(float_entry("2.5", 4000), (2500, false));
    assert_eq!(float_entry("nonsense", 4000), (4000, true));
}

#[test]
fn output_kind_selection_ignores_case() {
    assert_eq!(parse_output_kind("csv"), Some(OutputKind::Csv));
    assert_eq!(parse_output_kind("CSV"), Some(OutputKind::Csv));
    assert_eq!(parse_output_kind("json"), Some(OutputKind::Json));
    assert_eq!(parse_output_kind("Json"), Some(OutputKind::Json));
    assert_eq!(parse_output_kind("xml"), None);
    assert_eq!(parse_output_kind(""), None);
}

#[test]
fn filename_entries_get_the_selected_extension() {
    let default_json = default_output_name(OutputKind::Json);
    assert_eq!(default_json, "ping_history.json");
    assert_eq!(default_output_name(OutputKind::Csv), "ping_history.csv");
    assert_eq!(
        filename_entry("", default_json.clone(), OutputKind::Json),
        "ping_history.json"
    );
    assert_eq!(
        filename_entry("results", default_json.clone(), OutputKind::Json),
        "results.json"
    );
    assert_eq!(
        filename_entry("data.JSON", default_json.clone(), OutputKind::Json),
        "data.JSON"
    );
    assert_eq!(
        filename_entry("rows", default_output_name(OutputKind::Csv), OutputKind::Csv),
        "rows.csv"
    );
}

#[test]
fn destination_names_are_normalized_to_the_encoding() {
    assert_eq!(normalize_output_path("out.txt", OutputKind::Csv), "out.csv");
    assert_eq!(normalize_output_path("out", OutputKind::Json), "out.json");
    assert_eq!(normalize_output_path("a/b.x", OutputKind::Csv), "a/b.csv");
    assert_eq!(normalize_output_path("x.csv", OutputKind::Csv), "x.csv");
    assert_eq!(normalize_output_path("x.json", OutputKind::Json), "x.json");
    assert_eq!(normalize_output_path(".hidden", OutputKind::Json), ".hidden.json");
    assert_eq!(normalize_output_path("dir.d/name", OutputKind::Csv), "dir.d/name.csv");
}
