use comapi::metrics::{
    celsius_of_text, gb_text, get_cpu_load, get_cpu_temp, get_mem_usage, get_top,
    is_thermal_zone_name, ZoneReading,
};

fn zone(name: &str, temp: Option<&str>) -> ZoneReading {
    ZoneReading { name: name.to_string(), temp: temp.map(|t| t.to_string()) }
}

const UPTIME: &str = " 10:21:07 up 3 days,  2:14,  1 user,  load average: 0.15, 0.22, 0.18\n";

const FREE: &str = "               total        used        free      shared  buff/cache   available
Mem:           15890        3456        9120         412        3313       11702
Swap:           2047           0        2047
";

#[test]
fn cpu_load_is_first_figure() {
    assert_eq!(get_cpu_load("load average: 0.15, 0.22, 0.18"), "0.15");
    assert_eq!(get_cpu_load(UPTIME), "0.15");
}

#[test]
fn cpu_load_without_marker_is_empty() {
    assert_eq!(get_cpu_load(""), "");
    assert_eq!(get_cpu_load("up 3 days, load: 1.00"), "");
}

#[test]
fn cpu_load_stops_at_a_second_marker() {
    assert_eq!(get_cpu_load("load average:  2.5 load average: 1, 2"), "2.5");
}

#[test]
fn mem_line_from_third_field() {
    assert_eq!(get_mem_usage("Mem: 2048 1024 1024"), "1.0G");
}

#[test]
fn mem_from_free_report() {
    assert_eq!(get_mem_usage(FREE), "3.4G");
    assert_eq!(get_mem_usage("Swap: 1 2 3\r\nMem:\t8000  10240 0\r\n"), "10.0G");
}

#[test]
fn mem_without_mem_line_is_zero() {
    assert_eq!(get_mem_usage(""), "0.0G");
    assert_eq!(get_mem_usage("Swap: 2047 1024 1023\n xMem: 1 2048 3\n"), "0.0G");
}

#[test]
fn mem_unparseable_is_zero() {
    assert_eq!(get_mem_usage("Mem: 2048 lots 1024"), "0.0G");
    assert_eq!(get_mem_usage("Mem: 2048"), "0.0G");
}

#[test]
fn mem_beyond_64_bits_saturates() {
    assert_eq!(get_mem_usage("Mem: 1 99999999999999999999 2"), "18014398509481984.0G");
    assert_eq!(get_mem_usage("Mem: 1 10000000000000000000 2"), "9765625000000000.0G");
    assert_eq!(get_mem_usage("Mem: 1 100000000000000000000 2"), "18014398509481984.0G");
}

#[test]
fn mem_with_plus_sign() {
    assert_eq!(get_mem_usage("Mem: 2048 +1024 1024"), "1.0G");
    assert_eq!(get_mem_usage("Mem: 2048 + 1024"), "0.0G");
}

#[test]
fn gigabytes_round_to_nearest_tenth() {
    assert_eq!(gb_text(0), "0.0G");
    assert_eq!(gb_text(51), "0.0G");
    assert_eq!(gb_text(52), "0.1G");
    assert_eq!(gb_text(256), "0.2G");
    assert_eq!(gb_text(768), "0.8G");
    assert_eq!(gb_text(1536), "1.5G");
    assert_eq!(gb_text(102400), "100.0G");
}

#[test]
fn temperature_truncates_millidegrees() {
    assert_eq!(get_cpu_temp(&Some("45000".to_string()), &Vec::new()), "45°C");
    assert_eq!(get_cpu_temp(&Some("45999\n".to_string()), &Vec::new()), "45°C");
    assert_eq!(get_cpu_temp(&Some("-5500".to_string()), &Vec::new()), "-5°C");
    assert_eq!(get_cpu_temp(&Some("999".to_string()), &Vec::new()), "0°C");
}

#[test]
fn temperature_values() {
    assert_eq!(celsius_of_text(" 61234 \n"), Some(61));
    assert_eq!(celsius_of_text("+7000"), Some(7));
    assert_eq!(celsius_of_text("-999"), Some(0));
    assert_eq!(celsius_of_text("99999999999999999999999"), Some(i32::MAX));
    assert_eq!(celsius_of_text("-99999999999999999999999"), Some(i32::MIN));
    assert_eq!(celsius_of_text(""), None);
    assert_eq!(celsius_of_text("-"), None);
    assert_eq!(celsius_of_text("4a"), None);
}

#[test]
fn unparseable_primary_falls_back_to_zones() {
    let zones = vec![zone("thermal_zone1", Some("50000"))];
    assert_eq!(get_cpu_temp(&Some("hot".to_string()), &zones), "50°C");
    let zones = vec![zone("thermal_zone0", Some("garbage")), zone("thermal_zone1", Some("38000"))];
    assert_eq!(get_cpu_temp(&Some("garbage".to_string()), &zones), "38°C");
    assert_eq!(get_cpu_temp(&Some("hot".to_string()), &Vec::new()), "N/A");
}

#[test]
fn parseable_primary_wins_over_zones() {
    let zones = vec![zone("thermal_zone1", Some("50000"))];
    assert_eq!(get_cpu_temp(&Some("41000".to_string()), &zones), "41°C");
}

#[test]
fn temperature_with_fraction() {
    assert_eq!(celsius_of_text("45000.5"), Some(45));
    assert_eq!(celsius_of_text("45999.9\n"), Some(45));
    assert_eq!(celsius_of_text("-5500.25"), Some(-5));
    assert_eq!(celsius_of_text("1000."), Some(1));
    assert_eq!(celsius_of_text(".5"), Some(0));
    assert_eq!(celsius_of_text("."), None);
    assert_eq!(celsius_of_text("1.2.3"), None);
    assert_eq!(celsius_of_text("4 5"), None);
}

#[test]
fn unreadable_primary_falls_back_to_zones() {
    let zones = vec![
        zone("cooling_device0", Some("70000")),
        zone("thermal_zone0", None),
        zone("thermal_zone1", Some("n/a")),
        zone("thermal_zone2", Some("52000\n")),
        zone("thermal_zone3", Some("60000")),
    ];
    assert_eq!(get_cpu_temp(&None, &zones), "52°C");
}

#[test]
fn no_readable_source_gives_na() {
    let zones = vec![zone("thermal_zone0", None), zone("thermal_zone1", Some("x"))];
    assert_eq!(get_cpu_temp(&None, &zones), "N/A");
    assert_eq!(get_cpu_temp(&None, &Vec::new()), "N/A");
}

#[test]
fn zone_names() {
    assert!(is_thermal_zone_name("thermal_zone0"));
    assert!(is_thermal_zone_name("thermal_zone12"));
    assert!(!is_thermal_zone_name("cooling_device0"));
    assert!(!is_thermal_zone_name("thermal"));
}

#[test]
fn top_joins_the_three_figures() {
    let zones = vec![zone("thermal_zone0", Some("48500"))];
    assert_eq!(get_top(UPTIME, FREE, &None, &zones), "0.15,3.4G,48°C");
    assert_eq!(get_top(UPTIME, FREE, &Some("45000".to_string()), &zones), "0.15,3.4G,45°C");
}

#[test]
fn top_without_sources() {
    let zones = vec![zone("thermal_zone0", None)];
    assert_eq!(get_top(UPTIME, "Swap: 0 0 0\n", &None, &zones), "0.15,0.0G,N/A");
    assert_eq!(get_top("", "", &None, &Vec::new()), ",0.0G,N/A");
}
