use contas::config::{unsigned, Config, ConfigError, DEADLINE_SECS, DEFAULT_CONNECTIONS, DEFAULT_PORT};
use contas::decimal::read_digits;

fn some(text: &str) -> Option<String> {
    Some(text.to_string())
}

#[test]
fn defaults_stand_in_for_absent_settings() {
    let config = Config::from_vars(some("postgres://localhost/rinha"), None, None).unwrap();
    assert_eq!(config.database_url, "postgres://localhost/rinha");
    assert_eq!(config.port, 9999);
    assert_eq!(config.max_connections, 50);
    assert_eq!(DEFAULT_PORT, 9999);
    assert_eq!(DEFAULT_CONNECTIONS, 50);
    assert_eq!(DEADLINE_SECS, 5);
}

#[test]
fn settings_are_read_in_decimal() {
    let config = Config::from_vars(some("db"), some("8080"), some("30")).unwrap();
    assert_eq!(config.port, 8080);
    assert_eq!(config.max_connections, 30);
    let widest = Config::from_vars(some("db"), some("65535"), some("4294967295")).unwrap();
    assert_eq!(widest.port, 65535);
    assert_eq!(widest.max_connections, u32::MAX);
}

#[test]
fn the_store_must_be_named() {
    assert_eq!(Config::from_vars(None, None, None).unwrap_err(), ConfigError::MissingDatabaseUrl);
    assert_eq!(Config::from_vars(None, some("x"), some("y")).unwrap_err(), ConfigError::MissingDatabaseUrl);
}

#[test]
fn a_port_must_be_a_number_of_16_bits() {
    for port in ["", "http", "65536", "-1", "80 ", "8_0"] {
        assert_eq!(Config::from_vars(some("db"), some(port), None).unwrap_err(), ConfigError::InvalidPort);
    }
    assert_eq!(Config::from_vars(some("db"), some("x"), some("y")).unwrap_err(), ConfigError::InvalidPort);
}

#[test]
fn connections_must_be_a_number_of_32_bits() {
    for connections in ["", "many", "4294967296", "-1", "5.0", "99999999999999999999999999999"] {
        assert_eq!(
            Config::from_vars(some("db"), None, some(connections)).unwrap_err(),
            ConfigError::InvalidConnections
        );
    }
}

#[test]
fn unsigned_numbers_are_read_as_the_standard_library_reads_them() {
    for text in ["0", "50", "+50", "-50", "", "+", "0050", "4294967295", "4294967296", "5x", " 5", "٥"] {
        assert_eq!(unsigned(text, u32::MAX as u64).map(|v| v as u32), text.parse::<u32>().ok());
    }
    for text in ["18446744073709551615", "18446744073709551616", "184467440737095516150", "18446744073709551609"] {
        assert_eq!(unsigned(text, u64::MAX), text.parse::<u64>().ok());
    }
}

#[test]
fn digits_are_read_from_a_given_character_on() {
    assert_eq!(read_digits("ab12", 2, 100), Some(12));
    assert_eq!(read_digits("ab12", 1, 100), None);
    assert_eq!(read_digits("ab12", 4, 100), None);
    assert_eq!(read_digits("ab12", 9, 100), None);
    assert_eq!(read_digits("ção7", 3, 100), Some(7));
    assert_eq!(read_digits("101", 0, 100), None);
    assert_eq!(read_digits("100", 0, 100), Some(100));
    assert_eq!(read_digits("000100", 0, 100), Some(100));
}
