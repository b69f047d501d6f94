use vstd::prelude::*;
use crate::text::{decimal, push_decimal, push_str, string_from_chars};

verus! {

/// Most verbose kind of message that is written (as `log::LevelFilter`).
#[derive(Debug, Clone, Copy, PartialEq, Eq, Structural)]
pub enum LevelFilter {
    Off,
    Error,
    Warn,
    Info,
    Debug,
    Trace,
}

/// Settings of the logger: a global level, and levels for given modules.
#[derive(Debug)]
pub struct LoggerConfig {
    global_level: LevelFilter,
    filters: Vec<(String, LevelFilter)>,
}

impl LoggerConfig {
    pub closed spec fn spec_level(&self) -> LevelFilter {
        self.global_level
    }

    /// The module filters, in the order they were added.
    pub closed spec fn spec_filters(&self) -> Seq<(Seq<char>, LevelFilter)> {
        self.filters@.map_values(|f: (String, LevelFilter)| (f.0@, f.1))
    }

    /// Everything is written, no module filter.
    pub fn new() -> (r: LoggerConfig)
        ensures
            r.spec_level() == LevelFilter::Trace,
            r.spec_filters() == Seq::<(Seq<char>, LevelFilter)>::empty(),
    {
        let r = LoggerConfig { global_level: LevelFilter::Trace, filters: Vec::new() };
        assert(r.spec_filters() =~= Seq::<(Seq<char>, LevelFilter)>::empty());
        r
    }

    pub fn set_level(self, level: LevelFilter) -> (r: LoggerConfig)
        ensures
            r.spec_level() == level,
            r.spec_filters() == self.spec_filters(),
    {
        let mut s = self;
        s.global_level = level;
        s
    }

    /// Adds a level for the module `name`.
    pub fn add_filter(self, name: &str, level: LevelFilter) -> (r: LoggerConfig)
        ensures
            r.spec_level() == self.spec_level(),
            r.spec_filters() == self.spec_filters().push((name@, level)),
    {
        let mut s = self;
        let mut cs: Vec<char> = Vec::new();
        push_str(&mut cs, name);
        let n = string_from_chars(cs);
        let ghost before = s.filters@;
        s.filters.push((n, level));
        assert(s.spec_filters() =~= self.spec_filters().push((name@, level)));
        s
    }

    pub fn level(&self) -> (r: LevelFilter)
        ensures
            r == self.spec_level(),
    {
        self.global_level
    }

    /// Number of module filters.
    pub fn filter_count(&self) -> (r: usize)
        ensures
            r == self.spec_filters().len(),
    {
        self.filters.len()
    }

    /// The `i`-th module filter.
    pub fn filter(&self, i: usize) -> (r: (&String, LevelFilter))
        requires
            i < self.spec_filters().len(),
        ensures
            (r.0@, r.1) == self.spec_filters()[i as int],
    {
        let f = &self.filters[i];
        (&f.0, f.1)
    }
}

impl Default for LoggerConfig {
    fn default() -> (r: LoggerConfig)
        ensures
            r.spec_level() == LevelFilter::Trace,
            r.spec_filters() == Seq::<(Seq<char>, LevelFilter)>::empty(),
    {
        LoggerConfig::new()
    }
}

/// The kind of a log message (as `log::Level`).
#[derive(Debug, Clone, Copy, PartialEq, Eq, Structural)]
pub enum Level {
    Error,
    Warn,
    Info,
    Debug,
    Trace,
}

/// The terminal color a log message of some level is written in.
#[derive(Debug, Clone, Copy, PartialEq, Eq, Structural)]
pub enum LogColor {
    Normal,
    Cyan,
    Green,
    Yellow,
    Red,
}

/// The color of messages of `level`.
pub fn level_color(level: Level) -> (r: LogColor)
    ensures
        r == match level {
            Level::Trace => LogColor::Normal,
            Level::Debug => LogColor::Cyan,
            Level::Info => LogColor::Green,
            Level::Warn => LogColor::Yellow,
            Level::Error => LogColor::Red,
        },
{
    match level {
        Level::Trace => LogColor::Normal,
        Level::Debug => LogColor::Cyan,
        Level::Info => LogColor::Green,
        Level::Warn => LogColor::Yellow,
        Level::Error => LogColor::Red,
    }
}

/// The last piece of `s` cut at each `sep`, `cur` being the part of that
/// piece already read.
pub open spec fn after_last(s: Seq<char>, sep: char, cur: Seq<char>) -> Seq<char>
    decreases s.len(),
{
    if s.len() == 0 {
        cur
    } else if s[0] == sep {
        after_last(s.drop_first(), sep, Seq::empty())
    } else {
        after_last(s.drop_first(), sep, cur.push(s[0]))
    }
}

/// The last piece of `s` cut at each "::", the cuts being found from left
/// to right, `cur` being the part of that piece already read.
pub open spec fn after_last_path(s: Seq<char>, cur: Seq<char>) -> Seq<char>
    decreases s.len(),
{
    if s.len() == 0 {
        cur
    } else if s.len() >= 2 && s[0] == ':' && s[1] == ':' {
        after_last_path(s.skip(2), Seq::empty())
    } else {
        after_last_path(s.drop_first(), cur.push(s[0]))
    }
}

/// `s` without its ".rs" parts, found from left to right.
pub open spec fn without_rs(s: Seq<char>) -> Seq<char>
    decreases s.len(),
{
    if s.len() >= 3 && s[0] == '.' && s[1] == 'r' && s[2] == 's' {
        without_rs(s.skip(3))
    } else if s.len() == 0 {
        Seq::empty()
    } else {
        seq![s[0]] + without_rs(s.drop_first())
    }
}

/// How a log message names where it comes from: the module path followed
/// by ".rs" when the source file is named after the module, and otherwise
/// the module path, "::" and the file name.
pub open spec fn file_label(file: Option<Seq<char>>, module_name: Seq<char>) -> Seq<char> {
    let path = match file {
        Some(f) => f,
        None => "Unknown file"@,
    };
    let name = after_last(after_last(path, '\\', Seq::empty()), '/', Seq::empty());
    if after_last_path(module_name, Seq::empty()) == without_rs(name) {
        module_name + ".rs"@
    } else {
        module_name + "::"@ + name
    }
}

fn chars_of(s: &str) -> (r: Vec<char>)
    ensures
        r@ == s@,
{
    let mut v: Vec<char> = Vec::new();
    push_str(&mut v, s);
    v
}

fn last_piece(s: &Vec<char>, sep: char) -> (r: Vec<char>)
    ensures
        r@ == after_last(s@, sep, Seq::empty()),
{
    let mut cur: Vec<char> = Vec::new();
    let mut i: usize = 0;
    assert(s@.skip(0) =~= s@);
    assert(cur@ =~= Seq::<char>::empty());
    while i < s.len()
        invariant
            i <= s@.len(),
            after_last(s@, sep, Seq::empty()) == after_last(s@.skip(i as int), sep, cur@),
        decreases s@.len() - i,
    {
        assert(s@.skip(i as int).drop_first() =~= s@.skip(i as int + 1));
        if s[i] == sep {
            cur = Vec::new();
        } else {
            cur.push(s[i]);
        }
        i = i + 1;
    }
    assert(s@.skip(i as int).len() == 0);
    cur
}

fn last_path_piece(s: &Vec<char>) -> (r: Vec<char>)
    ensures
        r@ == after_last_path(s@, Seq::empty()),
{
    let mut cur: Vec<char> = Vec::new();
    let mut i: usize = 0;
    assert(s@.skip(0) =~= s@);
    assert(cur@ =~= Seq::<char>::empty());
    while i < s.len()
        invariant
            i <= s@.len(),
            after_last_path(s@, Seq::empty()) == after_last_path(s@.skip(i as int), cur@),
        decreases s@.len() - i,
    {
        let rest = Ghost(s@.skip(i as int));
        if s.len() - i > 1 && s[i] == ':' && s[i + 1] == ':' {
            assert(rest@.skip(2) =~= s@.skip(i as int + 2));
            cur = Vec::new();
            i = i + 2;
        } else {
            assert(rest@.drop_first() =~= s@.skip(i as int + 1));
            cur.push(s[i]);
            i = i + 1;
        }
    }
    assert(s@.skip(i as int).len() == 0);
    cur
}

fn strip_rs(s: &Vec<char>) -> (r: Vec<char>)
    ensures
        r@ == without_rs(s@),
{
    let mut out: Vec<char> = Vec::new();
    let mut i: usize = 0;
    assert(s@.skip(0) =~= s@);
    assert(out@ + without_rs(s@) =~= without_rs(s@));
    while i < s.len()
        invariant
            i <= s@.len(),
            without_rs(s@) == out@ + without_rs(s@.skip(i as int)),
        decreases s@.len() - i,
    {
        let rest = Ghost(s@.skip(i as int));
        if s.len() - i > 2 && s[i] == '.' && s[i + 1] == 'r' && s[i + 2] == 's' {
            assert(rest@.skip(3) =~= s@.skip(i as int + 3));
            i = i + 3;
        } else {
            assert(rest@.drop_first() =~= s@.skip(i as int + 1));
            assert(out@ + without_rs(rest@) =~= out@.push(s@[i as int]) + without_rs(s@.skip(i as int + 1)));
            out.push(s[i]);
            i = i + 1;
        }
    }
    assert(s@.skip(i as int).len() == 0);
    assert(out@ + Seq::<char>::empty() =~= out@);
    out
}

fn same_chars(a: &Vec<char>, b: &Vec<char>) -> (r: bool)
    ensures
        r == (a@ == b@),
{
    if a.len() != b.len() {
        return false;
    }
    let mut i: usize = 0;
    while i < a.len()
        invariant
            i <= a@.len(),
            a@.len() == b@.len(),
            forall|j: int| 0 <= j < i ==> a@[j] == b@[j],
        decreases a@.len() - i,
    {
        if a[i] != b[i] {
            return false;
        }
        i = i + 1;
    }
    assert(a@ =~= b@);
    true
}

/// How a log message coming from the source file `file` (if known), in the
/// module `module_name`, names where it comes from.
pub fn generate_file_name(file: Option<&str>, module_name: &str) -> (r: String)
    ensures
        r@ == file_label(
            match file {
                Some(f) => Some(f@),
                None => None,
            },
            module_name@,
        ),
{
    let path = match file {
        Some(f) => chars_of(f),
        None => chars_of("Unknown file"),
    };
    let name = last_piece(&last_piece(&path, '\\'), '/');
    let module = chars_of(module_name);
    let mut out = chars_of(module_name);
    if same_chars(&last_path_piece(&module), &strip_rs(&name)) {
        push_str(&mut out, ".rs");
    } else {
        push_str(&mut out, "::");
        let mut n = name;
        out.append(&mut n);
    }
    string_from_chars(out)
}

/// The messages of step `i` of the logger demonstration.
pub open spec fn demo_step(i: int) -> Seq<(Level, Seq<char>)> {
    seq![(Level::Trace, "loading: "@ + decimal((4 * i) as nat) + "%, very verbose debbuging information"@)]
        + if i == 5 {
        seq![(Level::Debug, "this is taking so long... boooring!"@)]
    } else if i == 10 {
        seq![(Level::Debug, "still alive! yay!"@)]
    } else if i == 13 {
        seq![(Level::Info, "halfway there!"@)]
    } else if i == 16 {
        seq![(Level::Debug, "*scratches nose*"@), (Level::Warn, "nose is itching, continuing anyways"@)]
    } else if i == 20 {
        seq![
            (Level::Debug, "uh oh"@),
            (Level::Warn, ">nose itching intensifies"@),
            (Level::Error, "HATCHOOO!"@),
            (Level::Debug, "encountered minor problem, trying to recover"@),
            (Level::Info, "gesundheit"@),
            (Level::Debug, "recovered from minor problem, continuing"@),
        ]
    } else if i == 25 {
        seq![(Level::Info, "successfully loaded nothing"@), (Level::Info, "have a good time!"@)]
    } else {
        Seq::empty()
    }
}

/// The messages of the first `n` steps of the logger demonstration.
pub open spec fn demo_messages(n: nat) -> Seq<(Level, Seq<char>)>
    decreases n,
{
    if n == 0 {
        Seq::empty()
    } else {
        demo_messages((n - 1) as nat) + demo_step(n - 1)
    }
}

/// The messages of a log of every level, as a fake loading of 26 steps
/// writes them, in order.
pub fn test() -> (r: Vec<(Level, String)>)
    ensures
        r@.map_values(|m: (Level, String)| (m.0, m.1@)) == demo_messages(26),
{
    let mut out: Vec<(Level, String)> = Vec::new();
    let mut i: u64 = 0;
    while i < 26
        invariant
            i <= 26,
            out@.map_values(|m: (Level, String)| (m.0, m.1@)) == demo_messages(i as nat),
        decreases 26 - i,
    {
        let ghost before = out@;
        let mut line: Vec<char> = Vec::new();
        push_str(&mut line, "loading: ");
        push_decimal(4 * i, &mut line);
        push_str(&mut line, "%, very verbose debbuging information");
        out.push((Level::Trace, string_from_chars(line)));
        if i == 5 {
            out.push((Level::Debug, "this is taking so long... boooring!".to_owned()));
        } else if i == 10 {
            out.push((Level::Debug, "still alive! yay!".to_owned()));
        } else if i == 13 {
            out.push((Level::Info, "halfway there!".to_owned()));
        } else if i == 16 {
            out.push((Level::Debug, "*scratches nose*".to_owned()));
            out.push((Level::Warn, "nose is itching, continuing anyways".to_owned()));
        } else if i == 20 {
            out.push((Level::Debug, "uh oh".to_owned()));
            out.push((Level::Warn, ">nose itching intensifies".to_owned()));
            out.push((Level::Error, "HATCHOOO!".to_owned()));
            out.push((Level::Debug, "encountered minor problem, trying to recover".to_owned()));
            out.push((Level::Info, "gesundheit".to_owned()));
            out.push((Level::Debug, "recovered from minor problem, continuing".to_owned()));
        } else if i == 25 {
            out.push((Level::Info, "successfully loaded nothing".to_owned()));
            out.push((Level::Info, "have a good time!".to_owned()));
        }
        proof {
            let view = |m: (Level, String)| (m.0, m.1@);
            assert(out@.map_values(view) =~= before.map_values(view) + demo_step(i as int));
        }
        i = i + 1;
    }
    out
}

} // verus!
