use beartv::cli::{address_from_args, has_flag, AUTO_FLAG, DEFAULT_ADDRESS};

fn args(list: &[&str]) -> Vec<String> {
    list.iter().map(|s| s.to_string()).collect()
}

#[test]
fn address_defaults_to_localhost_8080() {
    assert_eq!(DEFAULT_ADDRESS, "127.0.0.1:8080");
    assert_eq!(address_from_args(&args(&["client"])), "127.0.0.1:8080");
    assert_eq!(address_from_args(&args(&[])), "127.0.0.1:8080");
}

#[test]
fn address_is_first_argument() {
    assert_eq!(address_from_args(&args(&["client", "10.0.0.2:9000"])), "10.0.0.2:9000");
    assert_eq!(address_from_args(&args(&["client", "--auto", "x"])), "--auto");
}

#[test]
fn auto_flag_anywhere() {
    assert!(has_flag(&args(&["client", "127.0.0.1:8080", "--auto"]), AUTO_FLAG));
    assert!(has_flag(&args(&["--auto"]), AUTO_FLAG));
    assert!(!has_flag(&args(&["client", "--automatic", "-auto"]), AUTO_FLAG));
    assert!(!has_flag(&args(&[]), AUTO_FLAG));
}
