//! The command line.

use crate::text;
use vstd::prelude::*;

verus! {

/// The vsock port to listen on where none is given.
pub const DEFAULT_PORT: u32 = 5100;

/// What is behind the first `flag`.
pub open spec fn arg_value(args: Seq<Seq<char>>, flag: Seq<char>) -> Option<Seq<char>>
    decreases args.len(),
{
    if args.len() < 2 {
        None
    } else if args[0] == flag {
        Some(args[1])
    } else {
        arg_value(args.skip(1), flag)
    }
}

/// The texts of arguments.
pub open spec fn texts(args: Seq<String>) -> Seq<Seq<char>> {
    args.map_values(|s: String| s@)
}

/// The argument behind the first `flag`.
pub fn parse_arg(args: &Vec<String>, flag: &str) -> (r: Option<String>)
    ensures
        match r {
            Some(value) => arg_value(texts(args@), flag@) == Some(value@),
            None => arg_value(texts(args@), flag@) is None,
        },
{
    let ghost all = texts(args@);
    let wanted = flag.to_owned();
    if args.len() == 0 {
        return None;
    }
    let last = args.len() - 1;
    let mut i: usize = 0;
    assert(all.skip(0) =~= all);
    while i < last
        invariant
            i <= last,
            last == args@.len() - 1,
            all == texts(args@),
            wanted@ == flag@,
            arg_value(all, flag@) == arg_value(all.skip(i as int), flag@),
        decreases args@.len() - i,
    {
        assert(all.skip(i as int).skip(1) =~= all.skip(i + 1));
        assert(all.skip(i as int)[0] == args[i as int]@);
        assert(all.skip(i as int)[1] == args[i + 1]@);
        if args[i] == wanted {
            return Some(args[i + 1].clone());
        }
        i = i + 1;
    }
    None
}

/// Whether one of the arguments is `long` or `short`.
pub open spec fn given(args: Seq<Seq<char>>, long: Seq<char>, short: Seq<char>) -> bool {
    args.contains(long) || args.contains(short)
}

fn has_flag(args: &Vec<String>, long: &str, short: &str) -> (r: bool)
    ensures
        r == given(texts(args@), long@, short@),
{
    let ghost all = texts(args@);
    let wanted = long.to_owned();
    let other = short.to_owned();
    let mut i: usize = 0;
    while i < args.len()
        invariant
            i <= args@.len(),
            all == texts(args@),
            wanted@ == long@,
            other@ == short@,
            forall|k: int| 0 <= k < i ==> (#[trigger] all[k]) != long@ && all[k] != short@,
        decreases args@.len() - i,
    {
        assert(all[i as int] == args[i as int]@);
        if args[i] == wanted || args[i] == other {
            return true;
        }
        i = i + 1;
    }
    false
}

/// The number that decimal digits stand for.
pub open spec fn digits_value(s: Seq<char>) -> Option<nat>
    decreases s.len(),
{
    if s.len() == 0 {
        Some(0)
    } else {
        match digits_value(s.drop_last()) {
            Some(v) => if '0' <= s.last() <= '9' {
                Some((10 * v + (s.last() as int - '0' as int)) as nat)
            } else {
                None
            },
            None => None,
        }
    }
}

/// The number of 32 bits that a text stands for: digits, with or without a plus in front.
pub open spec fn parsed_u32(s: Seq<char>) -> Option<u32> {
    let digits = if s.len() > 0 && s[0] == '+' {
        s.skip(1)
    } else {
        s
    };
    match digits_value(digits) {
        Some(v) => if digits.len() > 0 && v <= u32::MAX {
            Some(v as u32)
        } else {
            None
        },
        None => None,
    }
}

/// More digits make no smaller number.
proof fn lemma_digits_grow(s: Seq<char>, n: int)
    requires
        0 <= n <= s.len(),
    ensures
        digits_value(s) is Some ==> digits_value(s.take(n)) is Some,
        digits_value(s) matches Some(v) ==> digits_value(s.take(n))->0 <= v,
    decreases s.len() - n,
{
    if n == s.len() {
        assert(s.take(n) =~= s);
    } else {
        lemma_digits_grow(s, n + 1);
        assert(s.take(n + 1).drop_last() =~= s.take(n));
    }
}

/// Reads a number of 32 bits.
pub fn parse_u32(s: &str) -> (r: Option<u32>)
    ensures
        r == parsed_u32(s@),
{
    let n = s.unicode_len();
    let start: usize = if n > 0 && s.get_char(0) == '+' {
        1
    } else {
        0
    };
    let ghost digits = s@.skip(start as int);
    assert(start == 0 ==> digits =~= s@);
    if start == n {
        return None;
    }
    let mut v: u64 = 0;
    let mut i: usize = start;
    assert(digits.take(0) =~= seq![]);
    while i < n
        invariant
            start <= i <= n,
            n == s@.len(),
            digits == s@.skip(start as int),
            digits_value(digits.take(i - start)) == Some(v as nat),
            v <= u32::MAX,
            parsed_u32(s@) == match digits_value(digits) {
                Some(v) => if v <= u32::MAX {
                    Some(v as u32)
                } else {
                    None
                },
                None => None,
            },
        decreases n - i,
    {
        let c = s.get_char(i);
        let ghost next = digits.take(i + 1 - start);
        proof {
            assert(next.drop_last() =~= digits.take(i - start));
            assert(next.last() == c);
            lemma_digits_grow(digits, i + 1 - start);
        }
        if c < '0' || c > '9' {
            return None;
        }
        v = 10 * v + (c as u64 - '0' as u64);
        if v > u32::MAX as u64 {
            return None;
        }
        i = i + 1;
    }
    assert(digits.take(i - start) =~= digits);
    Some(v as u32)
}

/// What the agent is to do.
pub enum Startup {
    /// Say how it is used.
    Help,
    /// Say its version.
    Version,
    /// Listen on a TCP address.
    Tcp { addr: String, log_level: String },
    /// Listen on a vsock port.
    Vsock { port: u32, log_level: String },
    /// Say that this text is no port.
    BadPort { text: String, log_level: String },
    /// Say that there is no vsock here.
    NoVsock { log_level: String },
}

/// The contents of a [`Startup`].
pub enum StartupView {
    Help,
    Version,
    Tcp { addr: Seq<char>, log_level: Seq<char> },
    Vsock { port: u32, log_level: Seq<char> },
    BadPort { text: Seq<char>, log_level: Seq<char> },
    NoVsock { log_level: Seq<char> },
}

impl View for Startup {
    type V = StartupView;

    open spec fn view(&self) -> StartupView {
        match *self {
            Startup::Help => StartupView::Help,
            Startup::Version => StartupView::Version,
            Startup::Tcp { addr, log_level } => StartupView::Tcp {
                addr: addr@,
                log_level: log_level@,
            },
            Startup::Vsock { port, log_level } => StartupView::Vsock { port, log_level: log_level@ },
            Startup::BadPort { text, log_level } => StartupView::BadPort {
                text: text@,
                log_level: log_level@,
            },
            Startup::NoVsock { log_level } => StartupView::NoVsock { log_level: log_level@ },
        }
    }
}

/// What arguments ask for, where there is vsock or is not.
pub open spec fn asked(args: Seq<Seq<char>>, vsock: bool) -> StartupView {
    let log_level = match arg_value(args, "--log-level"@) {
        Some(level) => level,
        None => "info"@,
    };
    if given(args, "--help"@, "-h"@) {
        StartupView::Help
    } else if given(args, "--version"@, "-V"@) {
        StartupView::Version
    } else {
        match arg_value(args, "--tcp"@) {
            Some(addr) => StartupView::Tcp { addr, log_level },
            None => if !vsock {
                StartupView::NoVsock { log_level }
            } else {
                match arg_value(args, "--port"@) {
                    Some(text) => match parsed_u32(text) {
                        Some(port) => StartupView::Vsock { port, log_level },
                        None => StartupView::BadPort { text, log_level },
                    },
                    None => StartupView::Vsock { port: DEFAULT_PORT, log_level },
                }
            },
        }
    }
}

/// What the arguments, the name of the program among them, ask for. `vsock` says whether there is
/// vsock here.
pub fn startup(args: &Vec<String>, vsock: bool) -> (r: Startup)
    ensures
        r@ == asked(texts(args@), vsock),
{
    if has_flag(args, "--help", "-h") {
        return Startup::Help;
    }
    if has_flag(args, "--version", "-V") {
        return Startup::Version;
    }
    let log_level = match parse_arg(args, "--log-level") {
        Some(level) => level,
        None => "info".to_owned(),
    };
    match parse_arg(args, "--tcp") {
        Some(addr) => Startup::Tcp { addr, log_level },
        None => if !vsock {
            Startup::NoVsock { log_level }
        } else {
            match parse_arg(args, "--port") {
                Some(text) => match parse_u32(text.as_str()) {
                    Some(port) => Startup::Vsock { port, log_level },
                    None => Startup::BadPort { text, log_level },
                },
                None => Startup::Vsock { port: DEFAULT_PORT, log_level },
            }
        },
    }
}

// ---- Laws ----

/// The value of a flag is what is behind its first place that is not the last; there is none
/// exactly where the flag has no such place.
pub proof fn lemma_arg_value(args: Seq<Seq<char>>, flag: Seq<char>)
    ensures
        match arg_value(args, flag) {
            Some(value) => exists|i: int|
                {
                    &&& 0 <= i < args.len() - 1
                    &&& #[trigger] args[i] == flag
                    &&& args[i + 1] == value
                    &&& forall|j: int| 0 <= j < i ==> #[trigger] args[j] != flag
                },
            None => forall|i: int| 0 <= i < args.len() - 1 ==> #[trigger] args[i] != flag,
        },
    decreases args.len(),
{
    if args.len() >= 2 {
        if args[0] == flag {
            assert(args[0] == flag);
        } else {
            let rest = args.skip(1);
            lemma_arg_value(rest, flag);
            match arg_value(rest, flag) {
                Some(value) => {
                    let i = choose|i: int|
                        {
                            &&& 0 <= i < rest.len() - 1
                            &&& #[trigger] rest[i] == flag
                            &&& rest[i + 1] == value
                            &&& forall|j: int| 0 <= j < i ==> #[trigger] rest[j] != flag
                        };
                    assert(args[i + 1] == flag && args[i + 1 + 1] == value);
                    assert forall|j: int| 0 <= j < i + 1 implies #[trigger] args[j] != flag by {
                        if j > 0 {
                            assert(args[j] == rest[j - 1]);
                        }
                    }
                },
                None => {
                    assert forall|i: int| 0 <= i < args.len() - 1 implies #[trigger] args[i]
                        != flag by {
                        if i > 0 {
                            assert(args[i] == rest[i - 1]);
                        }
                    }
                },
            }
        }
    }
}

/// Only digits stand for a number, and they stand for what they are worth.
pub proof fn lemma_digits_value(s: Seq<char>)
    ensures
        digits_value(s) is Some <==> forall|i: int|
            0 <= i < s.len() ==> '0' <= (#[trigger] s[i]) <= '9',
        digits_value(s) matches Some(v) ==> v == text::worth(s, 10),
    decreases s.len(),
{
    if s.len() > 0 {
        let front = s.drop_last();
        lemma_digits_value(front);
        assert(forall|i: int| 0 <= i < front.len() ==> front[i] == s[i]);
        if digits_value(front) is Some && '0' <= s.last() <= '9' {
            assert forall|i: int| 0 <= i < s.len() implies '0' <= (#[trigger] s[i]) <= '9' by {
                if i < front.len() {
                    assert(front[i] == s[i]);
                }
            }
        } else if digits_value(front) is None {
            let i = choose|i: int| 0 <= i < front.len() && !('0' <= (#[trigger] front[i]) <= '9');
            assert(s[i] == front[i]);
        } else {
            assert(s[s.len() - 1] == s.last());
        }
    }
}

/// A numeral is read as its number, with a plus in front or without, exactly where 32 bits hold it.
pub proof fn lemma_numbers_read(n: nat)
    ensures
        n <= u32::MAX ==> parsed_u32(text::decimal(n)) == Some(n as u32),
        n <= u32::MAX ==> parsed_u32(seq!['+'] + text::decimal(n)) == Some(n as u32),
        n > u32::MAX ==> parsed_u32(text::decimal(n)) is None,
        n > u32::MAX ==> parsed_u32(seq!['+'] + text::decimal(n)) is None,
{
    let s = text::decimal(n);
    text::lemma_decimal(n);
    lemma_digits_value(s);
    assert('0' <= s[0] <= '9');
    assert((seq!['+'] + s).skip(1) =~= s);
}

/// What is read as a number consists of digits, at least one, behind a plus at most, and is what
/// the digits are worth.
pub proof fn lemma_only_numbers_read(s: Seq<char>)
    ensures
        parsed_u32(s) matches Some(v) ==> {
            let digits = if s[0] == '+' {
                s.skip(1)
            } else {
                s
            };
            &&& s.len() > 0
            &&& digits.len() > 0
            &&& forall|i: int| 0 <= i < digits.len() ==> '0' <= (#[trigger] digits[i]) <= '9'
            &&& v == text::worth(digits, 10)
        },
{
    lemma_digits_value(s);
    if s.len() > 0 {
        lemma_digits_value(s.skip(1));
    }
}

/// The log level that arguments ask for: what is behind `--log-level`, or `info`.
pub open spec fn level(args: Seq<Seq<char>>) -> Seq<char> {
    match arg_value(args, "--log-level"@) {
        Some(text) => text,
        None => "info"@,
    }
}

/// Help comes before all, the version before all else, TCP before vsock. A port is the one that is
/// given, or 5100, and a port that is no number is told.
pub proof fn lemma_startup(args: Seq<Seq<char>>, vsock: bool)
    ensures
        ({
            let help = args.contains("--help"@) || args.contains("-h"@);
            let version = args.contains("--version"@) || args.contains("-V"@);
            let r = asked(args, vsock);
            let tcp = arg_value(args, "--tcp"@);
            let port = arg_value(args, "--port"@);
            &&& r is Help <==> help
            &&& r is Version <==> version && !help
            &&& !help && !version && tcp is Some ==> r == (StartupView::Tcp {
                addr: tcp->0,
                log_level: level(args),
            })
            &&& !help && !version && tcp is None && !vsock ==> r == (StartupView::NoVsock {
                log_level: level(args),
            })
            &&& !help && !version && tcp is None && vsock && port is None ==> r == (
            StartupView::Vsock { port: 5100, log_level: level(args) })
            &&& !help && !version && tcp is None && vsock && port is Some && parsed_u32(
                port->0,
            ) is Some ==> r == (StartupView::Vsock {
                port: parsed_u32(port->0)->0,
                log_level: level(args),
            })
            &&& !help && !version && tcp is None && vsock && port is Some && parsed_u32(
                port->0,
            ) is None ==> r == (StartupView::BadPort { text: port->0, log_level: level(args) })
        }),
{
}

/// Arguments are taken as they are, all of them.
pub proof fn lemma_texts(args: Seq<String>)
    ensures
        texts(args).len() == args.len(),
        forall|i: int| 0 <= i < args.len() ==> #[trigger] texts(args)[i] == args[i]@,
{
}

/// What the agent is to do is taken as it is.
pub proof fn lemma_startup_view(s: Startup)
    ensures
        s is Help <==> s@ is Help,
        s is Version <==> s@ is Version,
        s matches Startup::Tcp { addr, log_level } ==> s@ == (StartupView::Tcp {
            addr: addr@,
            log_level: log_level@,
        }),
        s matches Startup::Vsock { port, log_level } ==> s@ == (StartupView::Vsock {
            port,
            log_level: log_level@,
        }),
        s matches Startup::BadPort { text, log_level } ==> s@ == (StartupView::BadPort {
            text: text@,
            log_level: log_level@,
        }),
        s matches Startup::NoVsock { log_level } ==> s@ == (StartupView::NoVsock {
            log_level: log_level@,
        }),
{
}

} // verus!
