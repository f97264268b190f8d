//! The schema steps of the local database, in the order they are applied.
use vstd::prelude::*;

verus! {

/// Where the database lives, below the application's configuration
/// directory.
pub const DATABASE_URL: &'static str = "sqlite:clashmind.db";

/// Whether a schema step moves the schema forward or back.
#[derive(Debug, Clone, Copy, PartialEq, Eq, Structural)]
pub enum MigrationKind {
    Up,
    Down,
}

/// One schema step: its version, what it does, and its SQL.
#[derive(Debug, Clone, Copy, PartialEq, Eq)]
pub struct Migration {
    pub version: i64,
    pub description: &'static str,
    pub sql: &'static str,
    pub kind: MigrationKind,
}

/// The SQL of schema step 1: create connections table.
pub const CREATE_CONNECTIONS_TABLE_SQL: &'static str = r#"
CREATE TABLE IF NOT EXISTS connections (
    id           TEXT PRIMARY KEY,
    host         TEXT NOT NULL,
    dst_ip       TEXT,
    dst_port     INTEGER,
    src_ip       TEXT,
    src_port     INTEGER,
    network      TEXT NOT NULL,
    conn_type    TEXT NOT NULL,
    rule         TEXT NOT NULL,
    rule_payload TEXT,
    proxy_chain  TEXT NOT NULL,
    upload       INTEGER NOT NULL DEFAULT 0,
    download     INTEGER NOT NULL DEFAULT 0,
    start_time   TEXT NOT NULL,
    close_time   TEXT,
    created_at   TEXT NOT NULL DEFAULT (datetime('now'))
);

CREATE INDEX IF NOT EXISTS idx_connections_host ON connections(host);
CREATE INDEX IF NOT EXISTS idx_connections_start_time ON connections(start_time);
CREATE INDEX IF NOT EXISTS idx_connections_rule ON connections(rule);
"#;

/// The SQL of schema step 2: create traffic hourly table.
pub const CREATE_TRAFFIC_HOURLY_TABLE_SQL: &'static str = r#"
CREATE TABLE IF NOT EXISTS traffic_hourly (
    id         INTEGER PRIMARY KEY AUTOINCREMENT,
    hour       TEXT NOT NULL,
    upload     INTEGER NOT NULL DEFAULT 0,
    download   INTEGER NOT NULL DEFAULT 0,
    conn_count INTEGER NOT NULL DEFAULT 0,
    UNIQUE(hour)
);
"#;

/// The SQL of schema step 3: create traffic daily table.
pub const CREATE_TRAFFIC_DAILY_TABLE_SQL: &'static str = r#"
CREATE TABLE IF NOT EXISTS traffic_daily (
    id         INTEGER PRIMARY KEY AUTOINCREMENT,
    day        TEXT NOT NULL,
    upload     INTEGER NOT NULL DEFAULT 0,
    download   INTEGER NOT NULL DEFAULT 0,
    conn_count INTEGER NOT NULL DEFAULT 0,
    UNIQUE(day)
);
"#;

/// The SQL of schema step 4: create domain stats table.
pub const CREATE_DOMAIN_STATS_TABLE_SQL: &'static str = r#"
CREATE TABLE IF NOT EXISTS domain_stats (
    id         INTEGER PRIMARY KEY AUTOINCREMENT,
    domain     TEXT NOT NULL,
    day        TEXT NOT NULL,
    hit_count  INTEGER NOT NULL DEFAULT 0,
    upload     INTEGER NOT NULL DEFAULT 0,
    download   INTEGER NOT NULL DEFAULT 0,
    UNIQUE(domain, day)
);

CREATE INDEX IF NOT EXISTS idx_domain_stats_day ON domain_stats(day);
"#;

/// The SQL of schema step 5: create geoip cache table.
pub const CREATE_GEOIP_CACHE_TABLE_SQL: &'static str = r#"
CREATE TABLE IF NOT EXISTS geoip_cache (
    ip           TEXT PRIMARY KEY,
    country      TEXT,
    country_code TEXT,
    city         TEXT,
    latitude     REAL,
    longitude    REAL,
    updated_at   TEXT NOT NULL DEFAULT (datetime('now'))
);
"#;

/// The SQL of schema step 6: create traffic samples table.
pub const CREATE_TRAFFIC_SAMPLES_TABLE_SQL: &'static str = r#"
CREATE TABLE IF NOT EXISTS traffic_samples (
    id         INTEGER PRIMARY KEY AUTOINCREMENT,
    ts         TEXT NOT NULL,
    upload     INTEGER NOT NULL DEFAULT 0,
    download   INTEGER NOT NULL DEFAULT 0,
    conn_count INTEGER NOT NULL DEFAULT 0
);

CREATE INDEX IF NOT EXISTS idx_traffic_samples_ts ON traffic_samples(ts);
"#;

/// The SQL of schema step 7: add connections last observed at.
pub const ADD_CONNECTIONS_LAST_OBSERVED_AT_SQL: &'static str = r#"
ALTER TABLE connections ADD COLUMN last_observed_at TEXT;

UPDATE connections
SET last_observed_at = CASE
    WHEN close_time IS NULL THEN strftime('%Y-%m-%dT%H:%M:%SZ', 'now')
    ELSE COALESCE(
        close_time,
        strftime('%Y-%m-%dT%H:%M:%SZ', datetime(created_at)),
        start_time
    )
END
WHERE last_observed_at IS NULL;

CREATE INDEX IF NOT EXISTS idx_connections_last_observed_at ON connections(last_observed_at);
"#;

/// The SQL of schema step 8: create rule stats table.
pub const CREATE_RULE_STATS_TABLE_SQL: &'static str = r#"
CREATE TABLE IF NOT EXISTS rule_stats (
    id         INTEGER PRIMARY KEY AUTOINCREMENT,
    rule       TEXT NOT NULL,
    day        TEXT NOT NULL,
    hit_count  INTEGER NOT NULL DEFAULT 0,
    upload     INTEGER NOT NULL DEFAULT 0,
    download   INTEGER NOT NULL DEFAULT 0,
    UNIQUE(rule, day)
);

CREATE INDEX IF NOT EXISTS idx_rule_stats_day ON rule_stats(day);
"#;

/// The SQL of schema step 9: repair open connection observation baseline.
pub const REPAIR_OPEN_CONNECTION_OBSERVATION_BASELINE_SQL: &'static str = r#"
UPDATE connections
SET last_observed_at = strftime('%Y-%m-%dT%H:%M:%SZ', 'now')
WHERE close_time IS NULL;
"#;

/// The SQL of schema step 10: create ip traffic daily table.
pub const CREATE_IP_TRAFFIC_DAILY_TABLE_SQL: &'static str = r#"
CREATE TABLE IF NOT EXISTS ip_traffic_daily (
    id       INTEGER PRIMARY KEY AUTOINCREMENT,
    dst_ip   TEXT NOT NULL,
    day      TEXT NOT NULL,
    upload   INTEGER NOT NULL DEFAULT 0,
    download INTEGER NOT NULL DEFAULT 0,
    UNIQUE(dst_ip, day)
);

CREATE INDEX IF NOT EXISTS idx_ip_traffic_daily_day ON ip_traffic_daily(day);
CREATE INDEX IF NOT EXISTS idx_ip_traffic_daily_dst_ip ON ip_traffic_daily(dst_ip);
"#;

/// The SQL of schema step 11: create config snapshots table.
pub const CREATE_CONFIG_SNAPSHOTS_TABLE_SQL: &'static str = r#"
CREATE TABLE IF NOT EXISTS config_snapshots (
    id          INTEGER PRIMARY KEY AUTOINCREMENT,
    content     TEXT NOT NULL,
    source      TEXT NOT NULL,
    description TEXT,
    file_path   TEXT,
    created_at  TEXT NOT NULL DEFAULT (datetime('now'))
);

CREATE INDEX IF NOT EXISTS idx_snapshots_created_at ON config_snapshots(created_at);
"#;

/// The SQL of schema step 12: create ai conversations table.
pub const CREATE_AI_CONVERSATIONS_TABLE_SQL: &'static str = r#"
CREATE TABLE IF NOT EXISTS ai_conversations (
    id          INTEGER PRIMARY KEY AUTOINCREMENT,
    role        TEXT NOT NULL,
    content     TEXT NOT NULL,
    tool_calls  TEXT,
    tokens_used INTEGER,
    model       TEXT,
    created_at  TEXT NOT NULL DEFAULT (datetime('now'))
);

CREATE INDEX IF NOT EXISTS idx_conversations_created_at ON ai_conversations(created_at);
"#;

/// The schema steps, as (description, SQL), in the order they are applied.
pub open spec fn migration_steps() -> Seq<(Seq<char>, Seq<char>)> {
    seq![
        ("create_connections_table"@, CREATE_CONNECTIONS_TABLE_SQL@),
        ("create_traffic_hourly_table"@, CREATE_TRAFFIC_HOURLY_TABLE_SQL@),
        ("create_traffic_daily_table"@, CREATE_TRAFFIC_DAILY_TABLE_SQL@),
        ("create_domain_stats_table"@, CREATE_DOMAIN_STATS_TABLE_SQL@),
        ("create_geoip_cache_table"@, CREATE_GEOIP_CACHE_TABLE_SQL@),
        ("create_traffic_samples_table"@, CREATE_TRAFFIC_SAMPLES_TABLE_SQL@),
        ("add_connections_last_observed_at"@, ADD_CONNECTIONS_LAST_OBSERVED_AT_SQL@),
        ("create_rule_stats_table"@, CREATE_RULE_STATS_TABLE_SQL@),
        ("repair_open_connection_observation_baseline"@, REPAIR_OPEN_CONNECTION_OBSERVATION_BASELINE_SQL@),
        ("create_ip_traffic_daily_table"@, CREATE_IP_TRAFFIC_DAILY_TABLE_SQL@),
        ("create_config_snapshots_table"@, CREATE_CONFIG_SNAPSHOTS_TABLE_SQL@),
        ("create_ai_conversations_table"@, CREATE_AI_CONVERSATIONS_TABLE_SQL@),
    ]
}

/// The schema steps in the order they are applied: each moves the schema
/// forward, and the versions run 1, 2, 3, … without a gap, so they
/// strictly ascend.
pub fn get_migrations() -> (r: Vec<Migration>)
    ensures
        r@.len() == migration_steps().len(),
        forall|i: int| #![trigger r@[i]] 0 <= i < r@.len() ==> {
            &&& r@[i].version == i + 1
            &&& r@[i].kind == MigrationKind::Up
            &&& (r@[i].description@, r@[i].sql@) == migration_steps()[i]
        },
        forall|i: int, j: int| 0 <= i < j < r@.len() ==> (#[trigger] r@[i]).version < (#[trigger] r@[j]).version,
{
    let mut r: Vec<Migration> = Vec::new();
    r.push(Migration { version: 1, description: "create_connections_table", sql: CREATE_CONNECTIONS_TABLE_SQL, kind: MigrationKind::Up });
    r.push(Migration { version: 2, description: "create_traffic_hourly_table", sql: CREATE_TRAFFIC_HOURLY_TABLE_SQL, kind: MigrationKind::Up });
    r.push(Migration { version: 3, description: "create_traffic_daily_table", sql: CREATE_TRAFFIC_DAILY_TABLE_SQL, kind: MigrationKind::Up });
    r.push(Migration { version: 4, description: "create_domain_stats_table", sql: CREATE_DOMAIN_STATS_TABLE_SQL, kind: MigrationKind::Up });
    r.push(Migration { version: 5, description: "create_geoip_cache_table", sql: CREATE_GEOIP_CACHE_TABLE_SQL, kind: MigrationKind::Up });
    r.push(Migration { version: 6, description: "create_traffic_samples_table", sql: CREATE_TRAFFIC_SAMPLES_TABLE_SQL, kind: MigrationKind::Up });
    r.push(Migration { version: 7, description: "add_connections_last_observed_at", sql: ADD_CONNECTIONS_LAST_OBSERVED_AT_SQL, kind: MigrationKind::Up });
    r.push(Migration { version: 8, description: "create_rule_stats_table", sql: CREATE_RULE_STATS_TABLE_SQL, kind: MigrationKind::Up });
    r.push(Migration { version: 9, description: "repair_open_connection_observation_baseline", sql: REPAIR_OPEN_CONNECTION_OBSERVATION_BASELINE_SQL, kind: MigrationKind::Up });
    r.push(Migration { version: 10, description: "create_ip_traffic_daily_table", sql: CREATE_IP_TRAFFIC_DAILY_TABLE_SQL, kind: MigrationKind::Up });
    r.push(Migration { version: 11, description: "create_config_snapshots_table", sql: CREATE_CONFIG_SNAPSHOTS_TABLE_SQL, kind: MigrationKind::Up });
    r.push(Migration { version: 12, description: "create_ai_conversations_table", sql: CREATE_AI_CONVERSATIONS_TABLE_SQL, kind: MigrationKind::Up });
    proof {
        let s = migration_steps();
        assert forall|i: int| #![trigger r@[i]] 0 <= i < r@.len() implies {
            &&& r@[i].version == i + 1
            &&& r@[i].kind == MigrationKind::Up
            &&& (r@[i].description@, r@[i].sql@) == s[i]
        } by {}
    }
    r
}

} // verus!
