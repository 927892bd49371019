use vstd::prelude::*;
use vstd::string::*;

verus! {

/// Redraw interval, in milliseconds, when none is given.
pub const DEFAULT_INTERVAL_MS: u64 = 200;

/// Why the command line could not be read.
#[derive(Clone, Copy, Debug, PartialEq, Eq, Structural)]
pub enum ArgError {
    /// No command to run was given.
    MissingCommand,
    /// A flag other than `-i` or `--interval`.
    UnknownFlag,
    /// A flag without the value that follows it.
    MissingValue,
    /// An interval that is not a number of milliseconds.
    BadInterval,
}

/// How the command is run.
#[derive(Clone, Copy, Debug, PartialEq, Eq, Structural)]
pub struct Settings {
    pub interval_ms: u64,
}

/// Gathers flags into `Settings`.
#[derive(Clone, Copy, Debug, PartialEq, Eq, Structural)]
pub struct SettingsBuilder {
    pub interval_ms: Option<u64>,
}

pub open spec fn is_digit(c: char) -> bool {
    '0' <= c <= '9'
}

/// The number that decimal digits `s` write.
pub open spec fn digits_value(s: Seq<char>) -> int
    decreases s.len(),
{
    if s.len() == 0 {
        0
    } else {
        digits_value(s.drop_last()) * 10 + (s.last() as int - '0' as int)
    }
}

/// `s` without one leading `+`.
pub open spec fn unsigned_part(s: Seq<char>) -> Seq<char> {
    if s.len() > 0 && s[0] == '+' {
        s.drop_first()
    } else {
        s
    }
}

/// The milliseconds that `s` writes: an optional `+`, then one or more decimal digits
/// whose value fits a `u64`.
pub open spec fn millis_of(s: Seq<char>) -> Option<u64> {
    let d = unsigned_part(s);
    if d.len() > 0 && (forall|i: int| 0 <= i < d.len() ==> is_digit(#[trigger] d[i]))
        && digits_value(d) <= u64::MAX {
        Some(digits_value(d) as u64)
    } else {
        None
    }
}

proof fn lemma_digits_value_grows(d: Seq<char>, n: int)
    requires
        0 <= n <= d.len(),
        forall|i: int| 0 <= i < d.len() ==> is_digit(#[trigger] d[i]),
    ensures
        0 <= digits_value(d.take(n)) <= digits_value(d),
    decreases d.len(),
{
    if n == d.len() {
        assert(d.take(n) =~= d);
        if d.len() > 0 {
            lemma_digits_value_grows(d.drop_last(), n - 1);
        }
    } else {
        let p = d.drop_last();
        assert forall|i: int| 0 <= i < p.len() implies is_digit(#[trigger] p[i]) by {
            assert(p[i] == d[i]);
        }
        lemma_digits_value_grows(p, n);
        assert(p.take(n) =~= d.take(n));
        assert(is_digit(d[d.len() - 1]));
    }
}

/// Reads a number of milliseconds as `str::parse::<u64>` does.
pub fn parse_millis(value: &str) -> (r: Option<u64>)
    ensures
        r == millis_of(value@),
{
    let len = value.unicode_len();
    let mut start: usize = 0;
    if len > 0 && value.get_char(0) == '+' {
        start = 1;
    }
    let ghost d = unsigned_part(value@);
    assert(d =~= value@.subrange(start as int, len as int));
    if start == len {
        return None;
    }
    let mut acc: u64 = 0;
    let mut i: usize = start;
    while i < len
        invariant
            start <= i <= len,
            len == value@.len(),
            d == value@.subrange(start as int, len as int),
            d == unsigned_part(value@),
            acc == digits_value(d.take(i - start)),
            forall|j: int| 0 <= j < i - start ==> is_digit(#[trigger] d[j]),
        decreases len - i,
    {
        let c = value.get_char(i);
        assert(d[i - start] == c);
        if !('0' <= c && c <= '9') {
            assert(!is_digit(d[i - start]));
            return None;
        }
        let digit: u64 = (c as u32 - '0' as u32) as u64;
        assert(d.take(i - start + 1).drop_last() =~= d.take(i - start));
        if acc > (u64::MAX - digit) / 10 {
            proof {
                assert(acc * 10 + digit > u64::MAX) by (nonlinear_arith)
                    requires acc > (u64::MAX - digit) / 10, digit <= 9;
                let n = i - start + 1;
                assert(d.take(n).last() == c);
                assert(digits_value(d.take(n)) == acc * 10 + digit);
                if forall|j: int| 0 <= j < d.len() ==> is_digit(#[trigger] d[j]) {
                    lemma_digits_value_grows(d, n);
                    assert(digits_value(d) > u64::MAX);
                }
                assert(millis_of(value@) is None);
            }
            return None;
        }
        assert(acc * 10 + digit <= u64::MAX) by (nonlinear_arith)
            requires acc <= (u64::MAX - digit) / 10, digit <= 9;
        acc = acc * 10 + digit;
        i = i + 1;
    }
    assert(d.take(i - start) =~= d);
    Some(acc)
}

/// Whether two strings hold the same characters.
fn same_text(a: &str, b: &str) -> (r: bool)
    ensures
        r == (a@ == b@),
{
    let n = a.unicode_len();
    if n != b.unicode_len() {
        return false;
    }
    let mut i: usize = 0;
    while i < n
        invariant
            i <= n,
            n == a@.len(),
            n == b@.len(),
            forall|j: int| 0 <= j < i ==> a@[j] == b@[j],
        decreases n - i,
    {
        if a.get_char(i) != b.get_char(i) {
            return false;
        }
        i = i + 1;
    }
    assert(a@ =~= b@);
    true
}

/// What setting an interval from `value` makes of `b`.
pub open spec fn with_interval(b: SettingsBuilder, value: Seq<char>) -> Result<
    SettingsBuilder,
    ArgError,
> {
    match millis_of(value) {
        Some(m) => Ok(SettingsBuilder { interval_ms: Some(m), ..b }),
        None => Err(ArgError::BadInterval),
    }
}

/// What the short flag `-<arg> <value>` makes of `b`.
pub open spec fn short_arg_spec(b: SettingsBuilder, arg: Seq<char>, value: Seq<char>) -> Result<
    SettingsBuilder,
    ArgError,
> {
    if arg == seq!['i'] {
        with_interval(b, value)
    } else {
        Err(ArgError::UnknownFlag)
    }
}

/// What the long flag `--<arg> <value>` makes of `b`.
pub open spec fn long_arg_spec(b: SettingsBuilder, arg: Seq<char>, value: Seq<char>) -> Result<
    SettingsBuilder,
    ArgError,
> {
    if arg == seq!['i', 'n', 't', 'e', 'r', 'v', 'a', 'l'] {
        with_interval(b, value)
    } else {
        Err(ArgError::UnknownFlag)
    }
}

/// The settings that `b` builds.
pub open spec fn built(b: SettingsBuilder) -> Settings {
    Settings {
        interval_ms: match b.interval_ms {
            Some(m) => m,
            None => DEFAULT_INTERVAL_MS,
        },
    }
}

impl Default for SettingsBuilder {
    fn default() -> (r: SettingsBuilder)
        ensures
            r.interval_ms is None,
    {
        SettingsBuilder { interval_ms: None }
    }
}

impl SettingsBuilder {
    fn set_interval(self, value: &str) -> (r: Result<SettingsBuilder, ArgError>)
        ensures
            r == with_interval(self, value@),
    {
        match parse_millis(value) {
            Some(m) => Ok(SettingsBuilder { interval_ms: Some(m) }),
            None => Err(ArgError::BadInterval),
        }
    }

    /// Applies the short flag `-<arg> <value>`; `-i` sets the interval in milliseconds.
    pub fn add_short_arg(self, arg: &str, value: &str) -> (r: Result<SettingsBuilder, ArgError>)
        ensures
            r == short_arg_spec(self, arg@, value@),
    {
        proof {
            reveal_strlit("i");
            assert("i"@ =~= seq!['i']);
        }
        if same_text(arg, "i") {
            self.set_interval(value)
        } else {
            Err(ArgError::UnknownFlag)
        }
    }

    /// Applies the long flag `--<arg> <value>`; `--interval` sets the interval in milliseconds.
    pub fn add_long_arg(self, arg: &str, value: &str) -> (r: Result<SettingsBuilder, ArgError>)
        ensures
            r == long_arg_spec(self, arg@, value@),
    {
        proof {
            reveal_strlit("interval");
            assert("interval"@ =~= seq!['i', 'n', 't', 'e', 'r', 'v', 'a', 'l']);
        }
        if same_text(arg, "interval") {
            self.set_interval(value)
        } else {
            Err(ArgError::UnknownFlag)
        }
    }

    /// The settings gathered, with the default interval where none was set.
    pub fn build(self) -> (r: Settings)
        ensures
            r == built(self),
    {
        Settings {
            interval_ms: match self.interval_ms {
                Some(m) => m,
                None => DEFAULT_INTERVAL_MS,
            },
        }
    }
}

/// `k` is the position of the first `c` in `s`.
pub open spec fn is_first(s: Seq<char>, c: char, k: int) -> bool {
    0 <= k < s.len() && s[k] == c && forall|j: int| 0 <= j < k ==> s[j] != c
}

/// The words joined by single spaces.
pub open spec fn joined(words: Seq<Seq<char>>) -> Seq<char>
    decreases words.len(),
{
    if words.len() == 0 {
        Seq::empty()
    } else if words.len() == 1 {
        words[0]
    } else {
        joined(words.drop_last()) + seq![' '] + words.last()
    }
}

/// The settings of `b` and the command that the words `rest` make, if there is one.
pub open spec fn with_command(b: SettingsBuilder, rest: Seq<Seq<char>>) -> Result<
    (Settings, Seq<char>),
    ArgError,
> {
    if joined(rest).len() == 0 {
        Err(ArgError::MissingCommand)
    } else {
        Ok((built(b), joined(rest)))
    }
}

/// The flag that `args` begins with, applied to an empty builder, and how many
/// arguments it takes: `-<flag> <value>`, `--<flag> <value>` or `--<flag>=<value>`.
pub open spec fn leading_flag(args: Seq<Seq<char>>) -> Result<(SettingsBuilder, int), ArgError> {
    let first = args[0];
    let empty = SettingsBuilder { interval_ms: None };
    if first.len() >= 2 && first[1] == '-' {
        let body = first.skip(2);
        if exists|k: int| is_first(body, '=', k) {
            let k = choose|k: int| is_first(body, '=', k);
            match long_arg_spec(empty, body.take(k), body.skip(k + 1)) {
                Ok(b) => Ok((b, 1)),
                Err(e) => Err(e),
            }
        } else if args.len() < 2 {
            Err(ArgError::MissingValue)
        } else {
            match long_arg_spec(empty, body, args[1]) {
                Ok(b) => Ok((b, 2)),
                Err(e) => Err(e),
            }
        }
    } else if args.len() < 2 {
        Err(ArgError::MissingValue)
    } else {
        match short_arg_spec(empty, first.skip(1), args[1]) {
            Ok(b) => Ok((b, 2)),
            Err(e) => Err(e),
        }
    }
}

/// What the command line `args` (the program's name left out) sets up: an optional
/// leading flag, then the words of the command to run.
pub open spec fn parse_flags_spec(args: Seq<Seq<char>>) -> Result<(Settings, Seq<char>), ArgError> {
    if args.len() > 0 && args[0].len() > 0 && args[0][0] == '-' {
        match leading_flag(args) {
            Ok((b, n)) => with_command(b, args.skip(n)),
            Err(e) => Err(e),
        }
    } else {
        with_command(SettingsBuilder { interval_ms: None }, args)
    }
}

/// The position of the first `c` in `s`.
fn find_char(s: &str, c: char) -> (r: Option<usize>)
    ensures
        match r {
            Some(k) => is_first(s@, c, k as int),
            None => forall|j: int| 0 <= j < s@.len() ==> s@[j] != c,
        },
{
    let n = s.unicode_len();
    let mut i: usize = 0;
    while i < n
        invariant
            i <= n,
            n == s@.len(),
            forall|j: int| 0 <= j < i ==> s@[j] != c,
        decreases n - i,
    {
        if s.get_char(i) == c {
            return Some(i);
        }
        i = i + 1;
    }
    None
}

/// The arguments from `from` on, joined by single spaces.
fn join_from(args: &Vec<String>, from: usize) -> (r: String)
    requires
        from <= args.len(),
    ensures
        r@ == joined(args.deep_view().skip(from as int)),
{
    let ghost words = args.deep_view();
    let mut r = String::new();
    let mut i: usize = from;
    while i < args.len()
        invariant
            from <= i <= args.len(),
            words == args.deep_view(),
            r@ == joined(words.subrange(from as int, i as int)),
        decreases args.len() - i,
    {
        let ghost before = words.subrange(from as int, i as int);
        let ghost after = words.subrange(from as int, i + 1);
        assert(after.drop_last() =~= before);
        assert(after.last() == args@[i as int]@);
        if i > from {
            proof {
                reveal_strlit(" ");
                assert(" "@ =~= seq![' ']);
            }
            r.append(" ");
        } else {
            assert(r@ =~= Seq::<char>::empty());
            assert(r@ + args@[i as int]@ =~= args@[i as int]@);
        }
        r.append(args[i].as_str());
        i = i + 1;
    }
    assert(words.subrange(from as int, i as int) =~= words.skip(from as int));
    r
}

/// The settings and the command that `b` and the words from `from` on make.
fn finish(b: SettingsBuilder, args: &Vec<String>, from: usize) -> (r: Result<(Settings, String), ArgError>)
    requires
        from <= args.len(),
    ensures
        match r {
            Ok((s, c)) => with_command(b, args.deep_view().skip(from as int)) == Ok::<
                (Settings, Seq<char>),
                ArgError,
            >((s, c@)),
            Err(e) => with_command(b, args.deep_view().skip(from as int)) == Err::<
                (Settings, Seq<char>),
                ArgError,
            >(e),
        },
{
    let command = join_from(args, from);
    if command.as_str().unicode_len() == 0 {
        Err(ArgError::MissingCommand)
    } else {
        Ok((b.build(), command))
    }
}

/// Reads the command line `args`, the program's name left out: an optional leading
/// `-i <ms>`, `--interval <ms>` or `--interval=<ms>`, then the words of the command.
pub fn parse_flags(args: &Vec<String>) -> (r: Result<(Settings, String), ArgError>)
    ensures
        match r {
            Ok((s, c)) => parse_flags_spec(args.deep_view()) == Ok::<
                (Settings, Seq<char>),
                ArgError,
            >((s, c@)),
            Err(e) => parse_flags_spec(args.deep_view()) == Err::<(Settings, Seq<char>), ArgError>(
                e,
            ),
        },
{
    let ghost words = args.deep_view();
    let empty = SettingsBuilder { interval_ms: None };
    assert(words.skip(0) =~= words);
    if args.len() == 0 {
        return finish(empty, args, 0);
    }
    let first = args[0].as_str();
    let len = first.unicode_len();
    assert(words[0] == first@);
    if len == 0 || first.get_char(0) != '-' {
        return finish(empty, args, 0);
    }
    if len >= 2 && first.get_char(1) == '-' {
        let body = first.substring_char(2, len);
        assert(body@ =~= words[0].skip(2));
        match find_char(body, '=') {
            Some(k) => {
                let name = body.substring_char(0, k);
                let value = body.substring_char(k + 1, body.unicode_len());
                proof {
                    let k2 = choose|k2: int| is_first(body@, '=', k2);
                    assert(k2 == k);
                    assert(name@ =~= body@.take(k as int));
                    assert(value@ =~= body@.skip(k + 1));
                }
                match empty.add_long_arg(name, value) {
                    Ok(b) => finish(b, args, 1),
                    Err(e) => Err(e),
                }
            },
            None => {
                if args.len() < 2 {
                    return Err(ArgError::MissingValue);
                }
                assert(words[1] == args@[1]@);
                match empty.add_long_arg(body, args[1].as_str()) {
                    Ok(b) => finish(b, args, 2),
                    Err(e) => Err(e),
                }
            },
        }
    } else {
        if args.len() < 2 {
            return Err(ArgError::MissingValue);
        }
        let name = first.substring_char(1, len);
        assert(name@ =~= words[0].skip(1));
        assert(words[1] == args@[1]@);
        match empty.add_short_arg(name, args[1].as_str()) {
            Ok(b) => finish(b, args, 2),
            Err(e) => Err(e),
        }
    }
}

} // verus!
