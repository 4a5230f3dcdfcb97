//! Relay configuration.
use vstd::prelude::*;

use crate::clock::Duration;
use crate::env::{env_duration_ms, env_int, Env};

verus! {

pub const DEFAULT_PKT_CHAN_BUF: i64 = 256;

pub const DEFAULT_WRITE_POOL_SIZE: i64 = 256;

pub const DEFAULT_RELAY_STATS_INTERVAL_MS: u64 = 300_000;

pub const DEFAULT_WRITE_DEADLINE_MS: u64 = 500;

pub const DEFAULT_MAX_ROOMS: i64 = 10_000;

pub const DEFAULT_MAX_ROOMS_PER_IP: i64 = 10;

pub const DEFAULT_MAX_MSG_RATE: i64 = 10;

pub const DEFAULT_RATE_WINDOW_MS: u64 = 1000;

pub const DEFAULT_REG_CLEANUP_INTERVAL_MS: u64 = 60_000;

pub const DEFAULT_REG_TTL_MS: u64 = 60_000;

pub const DEFAULT_RELAY_WORKERS: i64 = 4;

pub const DEFAULT_MAX_CLIENTS_HARD: i64 = 20;

pub const DEFAULT_MAX_PENDING_PER_IP: i64 = 50;

/// REGs admitted per source and window.
pub const DEFAULT_REG_RATE: i64 = 10;

/// Most registrations that wait for the first cookie of their room.
pub const DEFAULT_MAX_PENDING_GLOBAL: i64 = 65_536;

/// Relay configuration.
#[derive(Clone, Copy, Debug, PartialEq, Eq, Structural)]
pub struct Config {
    pub pkt_chan_buf: usize,
    pub write_pool_size: usize,
    pub relay_stats_interval: Duration,
    pub write_deadline: Duration,
    pub max_rooms: i64,
    pub max_rooms_per_ip: i64,
    pub max_msg_rate: i64,
    pub max_reg_rate: i64,
    pub rate_window: Duration,
    pub reg_cleanup_interval: Duration,
    pub reg_ttl: Duration,
    pub relay_workers: usize,
    pub max_clients_hard: i64,
    pub max_pending_per_ip: i64,
    pub max_pending_global: i64,
}

/// The configuration in an environment: each setting from its variable, or
/// its default.
pub open spec fn spec_config(env: Map<Seq<char>, Seq<char>>) -> Config {
    let num = |name: Seq<char>, def: i64|
        crate::env::spec_env_int(crate::env::spec_var(env, name), def);
    let ms = |name: Seq<char>, def: u64|
        crate::clock::spec_from_millis(
            crate::env::spec_env_duration_ms(crate::env::spec_var(env, name), def) as nat,
        );
    Config {
        pkt_chan_buf: num("QVOLE_RELAY_PKT_CHAN_BUF"@, DEFAULT_PKT_CHAN_BUF) as usize,
        write_pool_size: num("QVOLE_RELAY_WRITE_POOL"@, DEFAULT_WRITE_POOL_SIZE) as usize,
        relay_stats_interval: ms(
            "QVOLE_RELAY_STATS_INTERVAL_MS"@,
            DEFAULT_RELAY_STATS_INTERVAL_MS,
        ),
        write_deadline: ms("QVOLE_RELAY_WRITE_DEADLINE_MS"@, DEFAULT_WRITE_DEADLINE_MS),
        max_rooms: num("QVOLE_RELAY_MAX_ROOMS"@, DEFAULT_MAX_ROOMS),
        max_rooms_per_ip: num("QVOLE_RELAY_MAX_ROOMS_PER_IP"@, DEFAULT_MAX_ROOMS_PER_IP),
        max_msg_rate: num("QVOLE_RELAY_MSG_RATE"@, DEFAULT_MAX_MSG_RATE),
        max_reg_rate: num("QVOLE_RELAY_REG_RATE"@, DEFAULT_REG_RATE),
        rate_window: ms("QVOLE_RELAY_RATE_WINDOW_MS"@, DEFAULT_RATE_WINDOW_MS),
        reg_cleanup_interval: ms(
            "QVOLE_RELAY_CLEANUP_INTERVAL_MS"@,
            DEFAULT_REG_CLEANUP_INTERVAL_MS,
        ),
        reg_ttl: ms("QVOLE_RELAY_TTL_MS"@, DEFAULT_REG_TTL_MS),
        relay_workers: num("QVOLE_RELAY_WORKERS"@, DEFAULT_RELAY_WORKERS) as usize,
        max_clients_hard: num("QVOLE_RELAY_MAX_CLIENTS_HARD"@, DEFAULT_MAX_CLIENTS_HARD),
        max_pending_per_ip: num("QVOLE_RELAY_MAX_PENDING_PER_IP"@, DEFAULT_MAX_PENDING_PER_IP),
        max_pending_global: num("QVOLE_RELAY_MAX_PENDING"@, DEFAULT_MAX_PENDING_GLOBAL),
    }
}

impl Config {
    /// The built-in configuration.
    pub fn defaults() -> (c: Self)
        ensures
            c == spec_config(Map::empty()),
    {
        Config {
            pkt_chan_buf: DEFAULT_PKT_CHAN_BUF as usize,
            write_pool_size: DEFAULT_WRITE_POOL_SIZE as usize,
            relay_stats_interval: Duration::from_millis(DEFAULT_RELAY_STATS_INTERVAL_MS),
            write_deadline: Duration::from_millis(DEFAULT_WRITE_DEADLINE_MS),
            max_rooms: DEFAULT_MAX_ROOMS,
            max_rooms_per_ip: DEFAULT_MAX_ROOMS_PER_IP,
            max_msg_rate: DEFAULT_MAX_MSG_RATE,
            max_reg_rate: DEFAULT_REG_RATE,
            rate_window: Duration::from_millis(DEFAULT_RATE_WINDOW_MS),
            reg_cleanup_interval: Duration::from_millis(DEFAULT_REG_CLEANUP_INTERVAL_MS),
            reg_ttl: Duration::from_millis(DEFAULT_REG_TTL_MS),
            relay_workers: DEFAULT_RELAY_WORKERS as usize,
            max_clients_hard: DEFAULT_MAX_CLIENTS_HARD,
            max_pending_per_ip: DEFAULT_MAX_PENDING_PER_IP,
            max_pending_global: DEFAULT_MAX_PENDING_GLOBAL,
        }
    }

    /// The defaults, overridden by the `QVOLE_RELAY_*` variables of `env`.
    pub fn from_env(env: &Env) -> (c: Self)
        requires
            env.wf(),
        ensures
            c == spec_config(env@),
    {
        let d = Self::defaults();
        Config {
            pkt_chan_buf: env_int(env, "QVOLE_RELAY_PKT_CHAN_BUF", d.pkt_chan_buf as i64) as usize,
            write_pool_size: env_int(
                env,
                "QVOLE_RELAY_WRITE_POOL",
                d.write_pool_size as i64,
            ) as usize,
            relay_stats_interval: Duration::from_millis(
                env_duration_ms(
                    env,
                    "QVOLE_RELAY_STATS_INTERVAL_MS",
                    d.relay_stats_interval.as_millis() as u64,
                ),
            ),
            write_deadline: Duration::from_millis(
                env_duration_ms(
                    env,
                    "QVOLE_RELAY_WRITE_DEADLINE_MS",
                    d.write_deadline.as_millis() as u64,
                ),
            ),
            max_rooms: env_int(env, "QVOLE_RELAY_MAX_ROOMS", d.max_rooms),
            max_rooms_per_ip: env_int(env, "QVOLE_RELAY_MAX_ROOMS_PER_IP", d.max_rooms_per_ip),
            max_msg_rate: env_int(env, "QVOLE_RELAY_MSG_RATE", d.max_msg_rate),
            max_reg_rate: env_int(env, "QVOLE_RELAY_REG_RATE", d.max_reg_rate),
            rate_window: Duration::from_millis(
                env_duration_ms(
                    env,
                    "QVOLE_RELAY_RATE_WINDOW_MS",
                    d.rate_window.as_millis() as u64,
                ),
            ),
            reg_cleanup_interval: Duration::from_millis(
                env_duration_ms(
                    env,
                    "QVOLE_RELAY_CLEANUP_INTERVAL_MS",
                    d.reg_cleanup_interval.as_millis() as u64,
                ),
            ),
            reg_ttl: Duration::from_millis(
                env_duration_ms(env, "QVOLE_RELAY_TTL_MS", d.reg_ttl.as_millis() as u64),
            ),
            relay_workers: env_int(env, "QVOLE_RELAY_WORKERS", d.relay_workers as i64) as usize,
            max_clients_hard: env_int(env, "QVOLE_RELAY_MAX_CLIENTS_HARD", d.max_clients_hard),
            max_pending_per_ip: env_int(
                env,
                "QVOLE_RELAY_MAX_PENDING_PER_IP",
                d.max_pending_per_ip,
            ),
            max_pending_global: env_int(env, "QVOLE_RELAY_MAX_PENDING", d.max_pending_global),
        }
    }
}

/// The limits that a running relay goes by.
#[derive(Clone, Copy, Debug, PartialEq, Eq, Structural)]
pub struct Limits {
    pub max_rooms: usize,
    pub max_rooms_per_ip: usize,
    pub max_clients_hard: usize,
    pub max_msg_rate: usize,
    pub max_reg_rate: usize,
    pub rate_window_ms: u64,
    pub reg_ttl_ms: u64,
    pub max_pending_per_ip: usize,
    pub max_pending_global: usize,
}

impl Limits {
    /// The limits that a configuration sets.
    pub open spec fn of(cfg: Config) -> Limits {
        Limits {
            max_rooms: cfg.max_rooms as usize,
            max_rooms_per_ip: cfg.max_rooms_per_ip as usize,
            max_clients_hard: cfg.max_clients_hard as usize,
            max_msg_rate: cfg.max_msg_rate as usize,
            max_reg_rate: cfg.max_reg_rate as usize,
            rate_window_ms: (cfg.rate_window.nanos / crate::clock::NANOS_PER_MILLI) as u64,
            reg_ttl_ms: (cfg.reg_ttl.nanos / crate::clock::NANOS_PER_MILLI) as u64,
            max_pending_per_ip: cfg.max_pending_per_ip as usize,
            max_pending_global: cfg.max_pending_global as usize,
        }
    }

    pub open spec fn spec_rate_window(self) -> Duration {
        crate::clock::spec_from_millis(self.rate_window_ms as nat)
    }

    pub open spec fn spec_reg_ttl(self) -> Duration {
        crate::clock::spec_from_millis(self.reg_ttl_ms as nat)
    }

    pub fn from_config(cfg: &Config) -> (l: Limits)
        ensures
            l == Limits::of(*cfg),
    {
        Limits {
            max_rooms: cfg.max_rooms as usize,
            max_rooms_per_ip: cfg.max_rooms_per_ip as usize,
            max_clients_hard: cfg.max_clients_hard as usize,
            max_msg_rate: cfg.max_msg_rate as usize,
            max_reg_rate: cfg.max_reg_rate as usize,
            rate_window_ms: cfg.rate_window.as_millis() as u64,
            reg_ttl_ms: cfg.reg_ttl.as_millis() as u64,
            max_pending_per_ip: cfg.max_pending_per_ip as usize,
            max_pending_global: cfg.max_pending_global as usize,
        }
    }

    pub fn rate_window(&self) -> (d: Duration)
        ensures
            d == self.spec_rate_window(),
    {
        Duration::from_millis(self.rate_window_ms)
    }

    pub fn reg_ttl(&self) -> (d: Duration)
        ensures
            d == self.spec_reg_ttl(),
    {
        Duration::from_millis(self.reg_ttl_ms)
    }
}

} // verus!
