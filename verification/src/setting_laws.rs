//! What numbers and settings are read as, and what holds where none are given.
use vstd::prelude::*;

use crate::config::{Config, Limits};

verus! {

/// The setting `name` holds the number `n` in decimal.
pub open spec fn holds_number(env: Map<Seq<char>, Seq<char>>, name: Seq<char>, n: int) -> bool {
    env.contains_key(name) && env[name] == crate::number::spec_decimal(n as nat)
}

/// `c` can stand in a number behind the first character.
pub open spec fn is_numeral(c: char) -> bool {
    c == '0' || c == '1' || c == '2' || c == '3' || c == '4' || c == '5' || c == '6' || c == '7' || c
        == '8' || c == '9'
}

/// A number in decimal has no zero in front and ends with its last digit,
/// behind the number that the digits before it are.
pub proof fn law_decimal_digits(n: nat)
    ensures
        n < 10 ==> crate::number::spec_decimal(n) == seq![(48 + n) as char],
        n >= 10 ==> crate::number::spec_decimal(n) == crate::number::spec_decimal(n / 10).push(
            (48 + n % 10) as char,
        ),
        n > 0 ==> crate::number::spec_decimal(n)[0] != '0',
        forall|i: int|
            0 <= i < crate::number::spec_decimal(n).len() ==> is_numeral(
                #[trigger] crate::number::spec_decimal(n)[i],
            ),
    decreases n,
{
    if n >= 10 {
        law_decimal_digits(n / 10);
        let s = crate::number::spec_decimal(n / 10);
        assert(crate::number::spec_decimal(n)[0] == s[0]) by {
            crate::number::law_decimal_round_trip(n / 10);
        }
        assert forall|i: int| 0 <= i < crate::number::spec_decimal(n).len() implies is_numeral(
            #[trigger] crate::number::spec_decimal(n)[i],
        ) by {
            if i < s.len() {
                assert(crate::number::spec_decimal(n)[i] == s[i]);
            }
        }
    }
}

proof fn lemma_unsigned(s: Seq<char>)
    requires
        s.len() > 0,
        crate::number::all_digits(s),
    ensures
        crate::number::unsigned_part(s) == (false, s),
        crate::number::unsigned_part(seq!['+'] + s) == (false, s),
        crate::number::unsigned_part(seq!['-'] + s) == (true, s),
{
    assert(crate::number::is_digit(s[0]));
    assert((seq!['+'] + s).drop_first() =~= s);
    assert((seq!['-'] + s).drop_first() =~= s);
}

/// A number is read from its decimal digits, with a plus sign or without; a
/// minus sign makes it negative. One that 64 bits do not hold is refused.
pub proof fn law_number_is_read(n: nat)
    ensures
        ({
            let d = crate::number::spec_decimal(n);
            let up = if n <= 0x7fff_ffff_ffff_ffff {
                Some(n as i64)
            } else {
                None::<i64>
            };
            let down = if n <= 0x8000_0000_0000_0000 {
                Some((-(n as int)) as i64)
            } else {
                None::<i64>
            };
            &&& crate::number::spec_parse_i64(d) == up
            &&& crate::number::spec_parse_i64(seq!['+'] + d) == up
            &&& crate::number::spec_parse_i64(seq!['-'] + d) == down
        }),
{
    crate::number::law_decimal_round_trip(n);
    lemma_unsigned(crate::number::spec_decimal(n));
}

/// A text with anything but digits behind a sign is no number, and neither is
/// a sign alone or nothing.
pub proof fn law_no_number(s: Seq<char>, i: int)
    requires
        0 <= i < s.len() ==> !is_numeral(s[i]),
        i == 0 && s.len() > 0 ==> s[0] != '+' && s[0] != '-',
        0 <= i < s.len() || s.len() == 0 || s == seq!['+'] || s == seq!['-'],
    ensures
        crate::number::spec_parse_i64(s) is None,
{
    let (neg, d) = crate::number::unsigned_part(s);
    if 0 <= i < s.len() {
        if d.len() == s.len() {
            assert(!crate::number::is_digit(d[i]));
        } else {
            assert(d[i - 1] == s[i]);
            assert(!crate::number::is_digit(d[i - 1]));
        }
    } else {
        assert(d.len() == 0);
    }
}

/// A setting counts where it holds a number above zero. Where it is missing,
/// zero, negative or no number, the default holds.
pub proof fn law_setting_is_taken(n: nat, s: Seq<char>, def: i64)
    ensures
        0 < n <= 0x7fff_ffff_ffff_ffff ==> crate::env::spec_env_int(
            Some(crate::number::spec_decimal(n)),
            def,
        ) == n,
        n > 0x7fff_ffff_ffff_ffff || n == 0 ==> crate::env::spec_env_int(
            Some(crate::number::spec_decimal(n)),
            def,
        ) == def,
        crate::env::spec_env_int(Some(seq!['-'] + crate::number::spec_decimal(n)), def) == def,
        crate::env::spec_env_int(None, def) == def,
        crate::number::spec_parse_i64(s) is None ==> crate::env::spec_env_int(Some(s), def) == def,
{
    law_number_is_read(n);
}

/// So does a setting in milliseconds, but a span that microseconds could not
/// count in 64 bits is cut down to the longest one.
pub proof fn law_span_is_taken(n: nat, s: Seq<char>, def: u64)
    ensures
        0 < n <= 9_223_372_036_854_775 ==> crate::env::spec_env_duration_ms(
            Some(crate::number::spec_decimal(n)),
            def,
        ) == n,
        9_223_372_036_854_775 < n <= 0x7fff_ffff_ffff_ffff ==> crate::env::spec_env_duration_ms(
            Some(crate::number::spec_decimal(n)),
            def,
        ) == 9_223_372_036_854_775,
        n > 0x7fff_ffff_ffff_ffff || n == 0 ==> crate::env::spec_env_duration_ms(
            Some(crate::number::spec_decimal(n)),
            def,
        ) == def,
        crate::env::spec_env_duration_ms(Some(seq!['-'] + crate::number::spec_decimal(n)), def)
            == def,
        crate::env::spec_env_duration_ms(None, def) == def,
        crate::number::spec_parse_i64(s) is None ==> crate::env::spec_env_duration_ms(Some(s), def)
            == def,
{
    law_number_is_read(n);
}

/// Each number in the configuration of a relay is the one in its variable.
/// Where the variable is missing it is the default.
pub proof fn law_relay_numbers(env: Map<Seq<char>, Seq<char>>, n: int)
    requires
        0 < n <= 0xffff_ffff,
    ensures
        ({
            let c = crate::config::spec_config(env);
            &&& holds_number(env, "QVOLE_RELAY_PKT_CHAN_BUF"@, n) ==> c.pkt_chan_buf == n
            &&& !env.contains_key("QVOLE_RELAY_PKT_CHAN_BUF"@) ==> c.pkt_chan_buf == 256
            &&& holds_number(env, "QVOLE_RELAY_WRITE_POOL"@, n) ==> c.write_pool_size == n
            &&& !env.contains_key("QVOLE_RELAY_WRITE_POOL"@) ==> c.write_pool_size == 256
            &&& holds_number(env, "QVOLE_RELAY_MAX_ROOMS"@, n) ==> c.max_rooms == n
            &&& !env.contains_key("QVOLE_RELAY_MAX_ROOMS"@) ==> c.max_rooms == 10_000
            &&& holds_number(env, "QVOLE_RELAY_MAX_ROOMS_PER_IP"@, n) ==> c.max_rooms_per_ip == n
            &&& !env.contains_key("QVOLE_RELAY_MAX_ROOMS_PER_IP"@) ==> c.max_rooms_per_ip == 10
            &&& holds_number(env, "QVOLE_RELAY_MSG_RATE"@, n) ==> c.max_msg_rate == n
            &&& !env.contains_key("QVOLE_RELAY_MSG_RATE"@) ==> c.max_msg_rate == 10
            &&& holds_number(env, "QVOLE_RELAY_REG_RATE"@, n) ==> c.max_reg_rate == n
            &&& !env.contains_key("QVOLE_RELAY_REG_RATE"@) ==> c.max_reg_rate == 10
            &&& holds_number(env, "QVOLE_RELAY_WORKERS"@, n) ==> c.relay_workers == n
            &&& !env.contains_key("QVOLE_RELAY_WORKERS"@) ==> c.relay_workers == 4
            &&& holds_number(env, "QVOLE_RELAY_MAX_CLIENTS_HARD"@, n) ==> c.max_clients_hard == n
            &&& !env.contains_key("QVOLE_RELAY_MAX_CLIENTS_HARD"@) ==> c.max_clients_hard == 20
            &&& holds_number(env, "QVOLE_RELAY_MAX_PENDING_PER_IP"@, n) ==> c.max_pending_per_ip
                == n
            &&& !env.contains_key("QVOLE_RELAY_MAX_PENDING_PER_IP"@) ==> c.max_pending_per_ip == 50
            &&& holds_number(env, "QVOLE_RELAY_MAX_PENDING"@, n) ==> c.max_pending_global == n
            &&& !env.contains_key("QVOLE_RELAY_MAX_PENDING"@) ==> c.max_pending_global == 65_536
        }),
{
    law_number_is_read(n as nat);
}

/// So is each span of time, in milliseconds.
pub proof fn law_relay_spans(env: Map<Seq<char>, Seq<char>>, n: int)
    requires
        0 < n <= 9_223_372_036_854_775,
    ensures
        ({
            let c = crate::config::spec_config(env);
            &&& holds_number(env, "QVOLE_RELAY_STATS_INTERVAL_MS"@, n)
                ==> c.relay_stats_interval.nanos == n * 1_000_000
            &&& !env.contains_key("QVOLE_RELAY_STATS_INTERVAL_MS"@) ==> c.relay_stats_interval.nanos
                == 300_000_000_000
            &&& holds_number(env, "QVOLE_RELAY_WRITE_DEADLINE_MS"@, n) ==> c.write_deadline.nanos
                == n * 1_000_000
            &&& !env.contains_key("QVOLE_RELAY_WRITE_DEADLINE_MS"@) ==> c.write_deadline.nanos
                == 500_000_000
            &&& holds_number(env, "QVOLE_RELAY_RATE_WINDOW_MS"@, n) ==> c.rate_window.nanos == n
                * 1_000_000
            &&& !env.contains_key("QVOLE_RELAY_RATE_WINDOW_MS"@) ==> c.rate_window.nanos
                == 1_000_000_000
            &&& holds_number(env, "QVOLE_RELAY_CLEANUP_INTERVAL_MS"@, n)
                ==> c.reg_cleanup_interval.nanos == n * 1_000_000
            &&& !env.contains_key("QVOLE_RELAY_CLEANUP_INTERVAL_MS"@)
                ==> c.reg_cleanup_interval.nanos == 60_000_000_000
            &&& holds_number(env, "QVOLE_RELAY_TTL_MS"@, n) ==> c.reg_ttl.nanos == n * 1_000_000
            &&& !env.contains_key("QVOLE_RELAY_TTL_MS"@) ==> c.reg_ttl.nanos == 60_000_000_000
        }),
{
    law_span_is_taken(n as nat, Seq::empty(), 0);
}

/// A relay goes by the limits of its configuration, each under its own name.
pub proof fn law_limits_are_configured(c: Config)
    requires
        0 <= c.max_rooms <= 0xffff_ffff,
        0 <= c.max_rooms_per_ip <= 0xffff_ffff,
        0 <= c.max_clients_hard <= 0xffff_ffff,
        0 <= c.max_msg_rate <= 0xffff_ffff,
        0 <= c.max_reg_rate <= 0xffff_ffff,
        0 <= c.max_pending_per_ip <= 0xffff_ffff,
        0 <= c.max_pending_global <= 0xffff_ffff,
        c.rate_window.nanos <= 9_223_372_036_854_775_000_000,
        c.reg_ttl.nanos <= 9_223_372_036_854_775_000_000,
    ensures
        ({
            let l = Limits::of(c);
            &&& l.max_rooms == c.max_rooms
            &&& l.max_rooms_per_ip == c.max_rooms_per_ip
            &&& l.max_clients_hard == c.max_clients_hard
            &&& l.max_msg_rate == c.max_msg_rate
            &&& l.max_reg_rate == c.max_reg_rate
            &&& l.max_pending_per_ip == c.max_pending_per_ip
            &&& l.max_pending_global == c.max_pending_global
            &&& l.spec_rate_window().nanos <= c.rate_window.nanos
            &&& c.rate_window.nanos < l.spec_rate_window().nanos + 1_000_000
            &&& l.spec_reg_ttl().nanos <= c.reg_ttl.nanos
            &&& c.reg_ttl.nanos < l.spec_reg_ttl().nanos + 1_000_000
            &&& c.rate_window.nanos % 1_000_000 == 0 ==> l.spec_rate_window() == c.rate_window
            &&& c.reg_ttl.nanos % 1_000_000 == 0 ==> l.spec_reg_ttl() == c.reg_ttl
        }),
{
}

/// A hole is punched with a packet every 50 milliseconds five times, every 100
/// milliseconds five times, and then every 200 milliseconds.
pub proof fn law_punch_intervals(n: nat)
    requires
        n <= u32::MAX,
    ensures
        crate::punch::PUNCH_INTERVALS_MS[crate::punch::after_ticks(n).interval as int] == if n < 5 {
            50u64
        } else if n < 10 {
            100
        } else {
            200
        },
        n < u32::MAX ==> crate::punch::after_ticks(n).grows() == (n == 4 || n == 9),
{
    crate::punch::law_punch_slows_down(n);
}

} // verus!
