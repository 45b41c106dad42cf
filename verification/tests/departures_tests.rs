use max7219_chain::config::Config;
use max7219_chain::departures::format_departure_times;
use max7219_chain::stops::Location;

#[test]
fn single_digit_minutes_get_a_leading_space() {
    let deps = vec![Some(("12".to_string(), 5i64))];
    assert_eq!(format_departure_times(&deps), "|12  5m");
}

#[test]
fn due_and_past_departures_show_zero_minutes() {
    let deps = vec![Some(("X".to_string(), 0i64)), Some(("Y".to_string(), -7i64))];
    assert_eq!(format_departure_times(&deps), "|X   0m|Y   0m");
}

#[test]
fn long_labels_are_cut_to_two_characters() {
    let deps = vec![Some(("Dublin Connolly".to_string(), 12i64))];
    assert_eq!(format_departure_times(&deps), "|Du 12m");
}

#[test]
fn short_labels_get_a_trailing_space() {
    let deps = vec![Some(("7".to_string(), 42i64))];
    assert_eq!(format_departure_times(&deps), "|7  42m");
}

#[test]
fn unknown_slots_are_skipped() {
    let deps = vec![None, Some(("77".to_string(), 100i64)), None];
    assert_eq!(format_departure_times(&deps), "|77 100m");
}

#[test]
fn no_departures_give_an_empty_line() {
    let deps: Vec<Option<(String, i64)>> = Vec::new();
    assert_eq!(format_departure_times(&deps), "");
}

#[test]
fn stop_params_values() {
    assert_eq!(
        Location::Killester.stop_params(),
        ("8220IR3881", "Killester", "TRAIN_STATION")
    );
    assert_eq!(
        Location::CastleGrove.stop_params(),
        ("8220DB000609", "Castle Grove, Clontarf", "BUS_STOP")
    );
    assert_eq!(
        Location::CollinsAvenue.stop_params(),
        ("8220DB000529", "Collins Avenue, Killester", "BUS_STOP")
    );
}

#[test]
fn config_defaults() {
    let c = Config::default();
    assert_eq!(c.wifi_ssid, "Wokwi-GUEST");
    assert_eq!(c.wifi_psk, "");
    assert_eq!(c.api_tfi, "");
}
