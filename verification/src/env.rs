//! Settings from environment variables.
use vstd::prelude::*;

use crate::number::parse_i64;
use crate::table::Table;

verus! {

/// Environment variables that the program was started with.
pub struct Env {
    pub vars: Table<String, String>,
}

impl View for Env {
    type V = Map<Seq<char>, Seq<char>>;

    open spec fn view(&self) -> Map<Seq<char>, Seq<char>> {
        self.vars@.map_values(|v: String| v@)
    }
}

/// The value of a variable, if it is set.
pub open spec fn spec_var(env: Map<Seq<char>, Seq<char>>, name: Seq<char>) -> Option<Seq<char>> {
    if env.contains_key(name) {
        Some(env[name])
    } else {
        None
    }
}

/// The view of an optional string.
pub open spec fn view_opt(v: Option<&str>) -> Option<Seq<char>> {
    match v {
        Some(s) => Some(s@),
        None => None,
    }
}

impl Env {
    pub open spec fn wf(&self) -> bool {
        self.vars.wf()
    }

    pub fn new() -> (e: Env)
        ensures
            e.wf(),
            e@ == Map::<Seq<char>, Seq<char>>::empty(),
    {
        let e = Env { vars: Table::new() };
        assert(e@ =~= Map::<Seq<char>, Seq<char>>::empty());
        e
    }

    pub fn set(&mut self, name: &str, value: &str)
        requires
            old(self).wf(),
        ensures
            final(self).wf(),
            final(self)@ == old(self)@.insert(name@, value@),
    {
        self.vars.insert(name.to_owned(), value.to_owned());
        assert(self@ =~= old(self)@.insert(name@, value@));
    }

    pub fn get(&self, name: &str) -> (r: Option<&str>)
        requires
            self.wf(),
        ensures
            view_opt(r) == spec_var(self@, name@),
    {
        match self.vars.get(&name.to_owned()) {
            Some(v) => Some(v.as_str()),
            None => None,
        }
    }
}

/// The positive number that a setting holds, else `def`.
pub open spec fn spec_env_int(v: Option<Seq<char>>, def: i64) -> i64 {
    match v {
        Some(s) => match crate::number::spec_parse_i64(s) {
            Some(n) => if n > 0 {
                n
            } else {
                def
            },
            None => def,
        },
        None => def,
    }
}

pub fn env_int_from(v: Option<&str>, def: i64) -> (r: i64)
    ensures
        r == spec_env_int(view_opt(v), def),
{
    match v {
        Some(s) => match parse_i64(s) {
            Some(n) => if n > 0 {
                n
            } else {
                def
            },
            None => def,
        },
        None => def,
    }
}

pub fn env_int(env: &Env, name: &str, def: i64) -> (r: i64)
    requires
        env.wf(),
    ensures
        r == spec_env_int(spec_var(env@, name@), def),
{
    env_int_from(env.get(name), def)
}

/// Largest number of milliseconds a setting can ask for.
pub const MAX_MS: u64 = 0x7fff_ffff_ffff_ffff / 1000;

/// The positive number of milliseconds that a setting holds, at most
/// [`MAX_MS`]; else `def_ms`.
pub open spec fn spec_env_duration_ms(v: Option<Seq<char>>, def_ms: u64) -> u64 {
    match v {
        Some(s) => match crate::number::spec_parse_i64(s) {
            Some(n) => if n <= 0 {
                def_ms
            } else if n > MAX_MS {
                MAX_MS
            } else {
                n as u64
            },
            None => def_ms,
        },
        None => def_ms,
    }
}

pub fn env_duration_ms_from(v: Option<&str>, def_ms: u64) -> (r: u64)
    ensures
        r == spec_env_duration_ms(view_opt(v), def_ms),
{
    match v {
        Some(s) => match parse_i64(s) {
            Some(n) => if n <= 0 {
                def_ms
            } else if n as u64 > MAX_MS {
                MAX_MS
            } else {
                n as u64
            },
            None => def_ms,
        },
        None => def_ms,
    }
}

pub fn env_duration_ms(env: &Env, name: &str, def_ms: u64) -> (r: u64)
    requires
        env.wf(),
    ensures
        r == spec_env_duration_ms(spec_var(env@, name@), def_ms),
{
    env_duration_ms_from(env.get(name), def_ms)
}

/// A setting is never zero or negative unless its default is, and a span of
/// time never longer than its default or [`MAX_MS`].
pub proof fn law_settings_bounded(v: Option<Seq<char>>, def: i64, def_ms: u64)
    ensures
        spec_env_int(v, def) > 0 || spec_env_int(v, def) == def,
        spec_env_duration_ms(v, def_ms) == def_ms || 0 < spec_env_duration_ms(v, def_ms) <= MAX_MS,
{
}

} // verus!
