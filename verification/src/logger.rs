//! Which messages are logged, and how they look.

use crate::strings::str_eq;
use vstd::prelude::*;
use vstd::string::StringExecFns;

verus! {

/// How important a message is, the most important first.
#[derive(Copy, Clone, Debug, PartialEq, Eq, Structural)]
pub enum Level {
    Error,
    Warn,
    Info,
    Debug,
    Trace,
}

impl Level {
    pub open spec fn spec_rank(self) -> int {
        match self {
            Level::Error => 1,
            Level::Warn => 2,
            Level::Info => 3,
            Level::Debug => 4,
            Level::Trace => 5,
        }
    }

    /// Higher for less important messages.
    pub fn rank(self) -> (r: u8)
        ensures
            r == self.spec_rank(),
    {
        match self {
            Level::Error => 1,
            Level::Warn => 2,
            Level::Info => 3,
            Level::Debug => 4,
            Level::Trace => 5,
        }
    }

    /// The name, filled up with spaces to five characters.
    pub open spec fn label(self) -> Seq<char> {
        match self {
            Level::Error => "ERROR"@,
            Level::Warn => "WARN "@,
            Level::Info => "INFO "@,
            Level::Debug => "DEBUG"@,
            Level::Trace => "TRACE"@,
        }
    }
}

/// The prefix of the paths of this library's modules.
pub const CRATE_PREFIX: &'static str = "stratus::";

/// `s` without a prefix, as often as it starts with it.
pub open spec fn trimmed(s: Seq<char>, prefix: Seq<char>) -> Seq<char>
    decreases s.len(),
{
    if 0 < prefix.len() <= s.len() && s.take(prefix.len() as int) == prefix {
        trimmed(s.skip(prefix.len() as int), prefix)
    } else {
        s
    }
}

fn starts_with(s: &str, from: usize, prefix: &str) -> (r: bool)
    requires
        from <= s@.len(),
    ensures
        r == (prefix@.len() <= s@.len() - from && s@.skip(from as int).take(prefix@.len() as int)
            == prefix@),
{
    let n: usize = s.unicode_len();
    let m: usize = prefix.unicode_len();
    if m > n - from {
        return false;
    }
    let ghost start = s@.skip(from as int).take(m as int);
    for i in 0..m
        invariant
            n == s@.len(),
            m == prefix@.len(),
            from <= n,
            m <= n - from,
            start == s@.skip(from as int).take(m as int),
            forall|j: int| 0 <= j < i ==> start[j] == prefix@[j],
    {
        if s.get_char(from + i) != prefix.get_char(i) {
            proof {
                assert(start[i as int] != prefix@[i as int]);
            }
            return false;
        }
    }
    proof {
        assert(start =~= prefix@);
    }
    true
}

/// Takes a prefix away, as often as the string starts with it.
pub fn trim_prefix<'a>(s: &'a str, prefix: &str) -> (r: &'a str)
    ensures
        r@ == trimmed(s@, prefix@),
{
    let n: usize = s.unicode_len();
    let m: usize = prefix.unicode_len();
    let mut from: usize = 0;
    proof {
        assert(s@.skip(0) =~= s@);
    }
    while m > 0 && starts_with(s, from, prefix)
        invariant
            n == s@.len(),
            m == prefix@.len(),
            from <= n,
            trimmed(s@, prefix@) == trimmed(s@.skip(from as int), prefix@),
        ensures
            from <= n,
            trimmed(s@, prefix@) == s@.skip(from as int),
        decreases n - from,
    {
        proof {
            assert(s@.skip(from as int).skip(m as int) =~= s@.skip(from + m));
        }
        from += m;
    }
    let r = s.substring_char(from, n);
    proof {
        assert(s@.subrange(from as int, n as int) =~= s@.skip(from as int));
    }
    r
}

/// A logger with a level for each of some modules.
pub struct NxKernelLogger {
    by_module: Vec<(&'static str, Level)>,
}

impl View for NxKernelLogger {
    type V = Map<Seq<char>, Level>;

    closed spec fn view(&self) -> Map<Seq<char>, Level> {
        levels_of(self.by_module@)
    }
}

/// What the entries add up to. Later ones take the place of earlier ones.
pub closed spec fn levels_of(entries: Seq<(&'static str, Level)>) -> Map<Seq<char>, Level>
    decreases entries.len(),
{
    if entries.len() == 0 {
        Map::empty()
    } else {
        levels_of(entries.drop_last()).insert(entries.last().0@, entries.last().1)
    }
}

/// Is a message of this level from this module logged? Modules without a level of their own log
/// messages from `Info` on.
pub open spec fn is_logged(levels: Map<Seq<char>, Level>, module: Option<Seq<char>>, level: Level) -> bool {
    let limit = match module {
        Some(path) => {
            let name = trimmed(path, "stratus::"@);
            if levels.contains_key(name) {
                levels[name]
            } else {
                Level::Info
            }
        },
        None => Level::Info,
    };
    level.spec_rank() <= limit.spec_rank()
}

impl NxKernelLogger {
    pub fn new() -> (r: NxKernelLogger)
        ensures
            r@ == Map::<Seq<char>, Level>::empty(),
    {
        NxKernelLogger { by_module: Vec::new() }
    }

    /// Gives a module a level of its own.
    pub fn module(self, module: &'static str, level: Level) -> (r: NxKernelLogger)
        ensures
            r@ == self@.insert(module@, level),
    {
        let mut by_module = self.by_module;
        by_module.push((module, level));
        proof {
            assert(by_module@.drop_last() =~= self.by_module@);
        }
        NxKernelLogger { by_module }
    }

    /// The level of a module, if it has one.
    pub fn level_of(&self, name: &str) -> (r: Option<Level>)
        ensures
            r is Some <==> self@.contains_key(name@),
            r matches Some(level) ==> level == self@[name@],
    {
        let mut i: usize = self.by_module.len();
        proof {
            assert(self.by_module@.take(i as int) =~= self.by_module@);
        }
        while i > 0
            invariant
                i <= self.by_module@.len(),
                self@.contains_key(name@) == levels_of(self.by_module@.take(i as int)).contains_key(name@),
                self@.contains_key(name@) ==> self@[name@] == levels_of(
                    self.by_module@.take(i as int),
                )[name@],
            decreases i,
        {
            proof {
                let t = self.by_module@.take(i as int);
                assert(t.drop_last() =~= self.by_module@.take(i - 1));
                assert(t.last() == self.by_module@[i - 1]);
            }
            i -= 1;
            let (module, level): (&'static str, Level) = self.by_module[i];
            if str_eq(module, name) {
                return Some(level);
            }
        }
        None
    }

    /// Is a message of this level from this module logged?
    pub fn logs(&self, module: Option<&str>, level: Level) -> (r: bool)
        ensures
            r == is_logged(
                self@,
                (match module {
                    Some(path) => Some(path@),
                    None => None,
                }),
                level,
            ),
    {
        let limit = match module {
            Some(path) => match self.level_of(trim_prefix(path, CRATE_PREFIX)) {
                Some(limit) => limit,
                None => Level::Info,
            },
            None => Level::Info,
        };
        level.rank() <= limit.rank()
    }
}

/// The text that is logged for a message.
pub fn log_line(level: Level, message: &str) -> (r: String)
    ensures
        r@ == "["@ + level.label() + "]  "@ + message@,
{
    let label = match level {
        Level::Error => "ERROR",
        Level::Warn => "WARN ",
        Level::Info => "INFO ",
        Level::Debug => "DEBUG",
        Level::Trace => "TRACE",
    };
    let mut r: String = String::from_str("[");
    r.append(label);
    r.append("]  ");
    r.append(message);
    r
}

/// Errors are always logged, and a message is logged if one that matters less is. A module without a level of
/// its own, and what belongs to no module, logs errors, warnings and information. A module with one logs
/// messages of that level and those that matter more.
pub proof fn law_logged(levels: Map<Seq<char>, Level>, module: Option<Seq<char>>, level: Level, other: Level)
    ensures
        is_logged(levels, module, Level::Error),
        is_logged(levels, module, level) && other.spec_rank() < level.spec_rank() ==> is_logged(
            levels,
            module,
            other,
        ),
        is_logged(levels, None, level) <==> level == Level::Error || level == Level::Warn || level
            == Level::Info,
        module matches Some(path) ==> {
            let name = trimmed(path, "stratus::"@);
            &&& !levels.contains_key(name) ==> is_logged(levels, module, level) == is_logged(
                levels,
                None,
                level,
            )
            &&& levels.contains_key(name) ==> is_logged(levels, module, levels[name])
            &&& levels.contains_key(name) && level.spec_rank() > levels[name].spec_rank() ==> !is_logged(
                levels,
                module,
                level,
            )
        },
        Level::Error.spec_rank() < Level::Warn.spec_rank() < Level::Info.spec_rank()
            < Level::Debug.spec_rank() < Level::Trace.spec_rank(),
{
}

/// A prefix is taken away as often as it is there, and nothing else is.
pub proof fn law_trimmed(s: Seq<char>, prefix: Seq<char>)
    requires
        prefix.len() > 0,
    ensures
        trimmed(prefix + s, prefix) == trimmed(s, prefix),
        !prefix.is_prefix_of(s) ==> trimmed(s, prefix) == s,
        !prefix.is_prefix_of(trimmed(s, prefix)),
    decreases s.len(),
{
    let whole = prefix + s;
    assert(whole.take(prefix.len() as int) =~= prefix);
    assert(whole.skip(prefix.len() as int) =~= s);
    if prefix.is_prefix_of(s) {
        assert(s.take(prefix.len() as int) =~= prefix);
        law_trimmed(s.skip(prefix.len() as int), prefix);
    } else if prefix.len() <= s.len() {
        assert(s.take(prefix.len() as int) == s.subrange(0, prefix.len() as int));
    }
}

} // verus!
