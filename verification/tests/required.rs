use std::time::Duration;

use rusty_tip::controller::SystemStats;
use rusty_tip::lib_old::ConnectionConfig;

#[test]
fn test_system_stats_initialization() {
    let stats = SystemStats {
        total_approaches: 5,
        positions_visited: 3,
        actions_executed: 10,
    };

    assert_eq!(stats.total_approaches, 5);
    assert_eq!(stats.positions_visited, 3);
    assert_eq!(stats.actions_executed, 10);
}

#[test]
fn test_connection_config() {
    let config = ConnectionConfig::default();
    assert_eq!(config.connect_timeout, Duration::from_secs(5));
    assert_eq!(config.read_timeout, Duration::from_secs(10));
    assert_eq!(config.write_timeout, Duration::from_secs(5));
}
