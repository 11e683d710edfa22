//! The command-line boundary: the configuration a run needs, the verified
//! reading of the interval argument, and the decisions taken over what the
//! option parser found.

use vstd::prelude::*;
use vstd::string::StrSliceExecFns;
use vstd::string::StringExecFns;

verus! {

/// A decimal digit character.
pub open spec fn is_dec_digit(c: char) -> bool {
    '0' <= c && c <= '9'
}

/// The numeric value of one digit character.
pub open spec fn digit_val(c: char) -> nat {
    (c as int - '0' as int) as nat
}

/// Every character of `s` is a decimal digit.
pub open spec fn all_dec_digits(s: Seq<char>) -> bool {
    forall|i: int| 0 <= i < s.len() ==> is_dec_digit(#[trigger] s[i])
}

/// The value of a digit string read in base ten.
pub open spec fn dec_value(s: Seq<char>) -> nat
    decreases s.len(),
{
    if s.len() == 0 {
        0
    } else {
        dec_value(s.drop_last()) * 10 + digit_val(s.last())
    }
}

/// What the interval argument means: a non-empty string of decimal digits
/// whose value is positive and fits in a `u32`; anything else is rejected.
pub open spec fn spec_interval(s: Seq<char>) -> Option<u32> {
    if s.len() > 0 && all_dec_digits(s) && 1 <= dec_value(s) && dec_value(s) <= u32::MAX {
        Some(dec_value(s) as u32)
    } else {
        None
    }
}

/// A longer digit string is never worth less than a prefix of it.
proof fn lemma_dec_value_prefix(s: Seq<char>, i: int)
    requires
        0 <= i <= s.len(),
    ensures
        dec_value(s.subrange(0, i)) <= dec_value(s),
    decreases s.len() - i,
{
    if i == s.len() {
        assert(s.subrange(0, i) =~= s);
    } else {
        let t = s.subrange(0, i + 1);
        assert(t.drop_last() =~= s.subrange(0, i));
        lemma_dec_value_prefix(s, i + 1);
    }
}

/// Read the interval argument. Returns the value exactly when `spec_interval`
/// accepts the string.
pub fn parse_interval(s: &str) -> (r: Option<u32>)
    ensures
        r == spec_interval(s@),
{
    let len: usize = s.unicode_len();
    if len == 0 {
        return None;
    }
    let mut i: usize = 0;
    let mut value: u64 = 0;
    while i < len
        invariant
            0 <= i <= len,
            len == s@.len(),
            forall|j: int| 0 <= j < i ==> is_dec_digit(#[trigger] s@[j]),
            value == dec_value(s@.subrange(0, i as int)),
            value <= u32::MAX,
        decreases len - i,
    {
        let c = s.get_char(i);
        let cv: u32 = c as u32;
        if cv < 48 || cv > 57 {
            proof {
                assert(!is_dec_digit(s@[i as int]));
            }
            return None;
        }
        let next: u64 = value * 10 + (cv - 48) as u64;
        proof {
            let t = s@.subrange(0, i + 1);
            assert(t.drop_last() =~= s@.subrange(0, i as int));
            assert(t.last() == s@[i as int]);
            assert(next == dec_value(t));
        }
        if next > 0xFFFF_FFFF {
            proof {
                lemma_dec_value_prefix(s@, i + 1);
            }
            return None;
        }
        value = next;
        i = i + 1;
    }
    proof {
        assert(s@.subrange(0, len as int) =~= s@);
    }
    if value == 0 {
        return None;
    }
    Some(value as u32)
}

/// The configuration of one run, fixed at startup: how many measurements to
/// report and the URL to probe.
pub struct Config {
    pub interval_count: u32,
    pub url: String,
}

impl Config {
    /// The interval count is positive.
    pub open spec fn wf(self) -> bool {
        1 <= self.interval_count
    }
}

/// Why no measurement was attempted: a required argument is missing or bad,
/// or the option parser itself rejected the command line.
pub enum CliError {
    MissingInterval,
    MissingUrl,
    BadInterval,
    BadOptions(String),
}

impl CliError {
    /// The error line reported to the operator for this error.
    pub fn message(&self) -> (r: String)
        ensures
            (match self {
                CliError::MissingInterval => r@ == "error: missing interval argument"@,
                CliError::MissingUrl => r@ == "error: missing url argument"@,
                CliError::BadInterval => r@ == "error: invalid interval argument"@,
                CliError::BadOptions(m) => r@ == "error: "@ + m@,
            }),
    {
        match self {
            CliError::MissingInterval => "error: missing interval argument".to_owned(),
            CliError::MissingUrl => "error: missing url argument".to_owned(),
            CliError::BadInterval => "error: invalid interval argument".to_owned(),
            CliError::BadOptions(m) => {
                let mut out: String = "error: ".to_owned();
                out.append(m.as_str());
                out
            },
        }
    }
}

/// Decide what a run gets from the two option values: the interval argument
/// is required first, then the URL; a present interval must read as a
/// positive count.
pub fn config_from_opts(interval_arg: Option<String>, url_arg: Option<String>) -> (r: Result<
    Config,
    CliError,
>)
    ensures
        interval_arg is None ==> (r matches Err(e) && e is MissingInterval),
        interval_arg is Some && url_arg is None ==> (r matches Err(e) && e is MissingUrl),
        interval_arg matches Some(t) ==> (url_arg matches Some(u) ==> (match spec_interval(t@) {
            Some(n) => r matches Ok(c) && c.interval_count == n && c.url == u && c.wf(),
            None => r matches Err(e) && e is BadInterval,
        })),
{
    match interval_arg {
        None => Err(CliError::MissingInterval),
        Some(t) => match url_arg {
            None => Err(CliError::MissingUrl),
            Some(u) => match parse_interval(t.as_str()) {
                None => Err(CliError::BadInterval),
                Some(n) => Ok(Config { interval_count: n, url: u }),
            },
        },
    }
}

#[verifier::external_type_specification]
#[verifier::external_body]
pub struct ExOptions(getopts::Options);

#[verifier::external_type_specification]
#[verifier::external_body]
pub struct ExMatches(getopts::Matches);

#[verifier::external_type_specification]
#[verifier::external_body]
pub struct ExFail(getopts::Fail);

/// The option groups registered so far, in order, each as its pair of short
/// and long names (an absent name is the empty string).
pub uninterp spec fn option_groups(opts: getopts::Options) -> Seq<(Seq<char>, Seq<char>)>;

/// The options were built only by this module's registrations: every group
/// carries at least one name, takes an argument and is optional, and the
/// parser keeps its default parsing style. For such options the outcome of
/// `parse` is a function of the registered groups and the arguments alone.
pub uninterp spec fn options_parseable(opts: getopts::Options) -> bool;

/// The option names the parse result answers for.
pub uninterp spec fn matched_names(m: getopts::Matches) -> Set<Seq<char>>;

/// What `opt_str` returns on this parse result for the given option name.
pub uninterp spec fn opt_str_of(m: getopts::Matches, name: Seq<char>) -> Option<Seq<char>>;

/// Whether `parse` accepts the arguments against the given registered
/// groups (argument-taking, optional, default style throughout).
pub uninterp spec fn parse_ok(groups: Seq<(Seq<char>, Seq<char>)>, args: Seq<Seq<char>>) -> bool;

/// The option value a successful parse of the arguments holds for the given
/// name, with the given registered groups.
pub uninterp spec fn parsed_opt(
    groups: Seq<(Seq<char>, Seq<char>)>,
    args: Seq<Seq<char>>,
    name: Seq<char>,
) -> Option<Seq<char>>;

/// The names of the given groups: every non-empty short or long name.
pub open spec fn group_names(groups: Seq<(Seq<char>, Seq<char>)>) -> Set<Seq<char>> {
    Set::new(
        |n: Seq<char>|
            n.len() > 0 && exists|i: int|
                0 <= i < groups.len() && ((#[trigger] groups[i]).0 == n || groups[i].1 == n),
    )
}

/// Relies on getopts::Options::new: a parser with no option groups yet.
#[verifier::external_body]
fn new_options() -> (r: getopts::Options)
    ensures
        option_groups(r) == Seq::<(Seq<char>, Seq<char>)>::empty(),
        options_parseable(r),
{
    getopts::Options::new()
}

/// Relies on getopts::Options::optopt: registers one more optional option
/// that takes an argument, under the given short and long names. getopts
/// panics on a short name over one byte or a long name of exactly one byte,
/// so those are excluded here.
#[verifier::external_body]
fn add_optopt(opts: &mut getopts::Options, short: &str, long: &str, desc: &str, hint: &str)
    requires
        vstd::string::is_ascii(short),
        vstd::string::is_ascii(long),
        short@.len() <= 1,
        long@.len() != 1,
        short@.len() + long@.len() >= 1,
        options_parseable(*old(opts)),
    ensures
        options_parseable(*final(opts)),
        option_groups(*final(opts)) == option_groups(*old(opts)).push((short@, long@)),
{
    opts.optopt(short, long, desc, hint);
}

/// Relies on getopts::Options::parse: matches the arguments against the
/// registered options. Whether it succeeds, and what each option's value
/// then is, depends only on the registered groups and the arguments; a
/// successful parse answers for exactly the registered names.
#[verifier::external_body]
fn parse_options(opts: &getopts::Options, args: &Vec<String>) -> (r: Result<
    getopts::Matches,
    getopts::Fail,
>)
    requires
        options_parseable(*opts),
    ensures
        (r is Ok) == parse_ok(option_groups(*opts), args.deep_view()),
        r matches Ok(m) ==> matched_names(m) == group_names(option_groups(*opts)),
        r matches Ok(m) ==> forall|n: Seq<char>| #[trigger]
            opt_str_of(m, n) == parsed_opt(option_groups(*opts), args.deep_view(), n),
{
    opts.parse(args)
}

/// Relies on getopts::Matches::opt_str: the argument given to the named
/// option, if any. getopts panics on a name it never registered, so the
/// name must be among the matched ones.
#[verifier::external_body]
fn opt_value(m: &getopts::Matches, name: &str) -> (r: Option<String>)
    requires
        matched_names(*m).contains(name@),
    ensures
        (match r {
            Some(s) => opt_str_of(*m, name@) == Some(s@),
            None => opt_str_of(*m, name@) is None,
        }),
{
    m.opt_str(name)
}

/// Relies on the Display impl of getopts::Fail to describe a parse failure.
#[verifier::external_body]
fn fail_message(fail: &getopts::Fail) -> (r: String) {
    fail.to_string()
}

/// The two option groups this tool registers: `-t` and `-u`, short names
/// only.
pub open spec fn cli_groups() -> Seq<(Seq<char>, Seq<char>)> {
    seq![("t"@, ""@), ("u"@, ""@)]
}

/// Read the whole command line (without the program name): register the two
/// options, parse, and decide. A command line the option parser rejects
/// names its complaint; one it accepts is decided by its `-t` and `-u`
/// values exactly as `config_from_opts` says.
pub fn parse_cli(args: &Vec<String>) -> (r: Result<Config, CliError>)
    ensures
        !parse_ok(cli_groups(), args.deep_view()) ==> (r matches Err(e) && e is BadOptions),
        parse_ok(cli_groups(), args.deep_view()) ==> (match parsed_opt(
            cli_groups(),
            args.deep_view(),
            "t"@,
        ) {
            None => r matches Err(e) && e is MissingInterval,
            Some(ts) => match parsed_opt(cli_groups(), args.deep_view(), "u"@) {
                None => r matches Err(e) && e is MissingUrl,
                Some(us) => match spec_interval(ts) {
                    Some(n) => r matches Ok(c) && c.interval_count == n && c.url@ == us,
                    None => r matches Err(e) && e is BadInterval,
                },
            },
        }),
        r matches Ok(c) ==> c.wf(),
{
    proof {
        reveal_strlit("t");
        reveal_strlit("u");
        reveal_strlit("");
    }
    let mut opts = new_options();
    add_optopt(&mut opts, "t", "", "interval in seconds", "INTERVAL");
    add_optopt(&mut opts, "u", "", "URL to measure latency of", "URL");
    proof {
        assert(option_groups(opts) =~= cli_groups());
        assert(group_names(cli_groups()).contains("t"@)) by {
            assert(cli_groups()[0].0 == "t"@);
        }
        assert(group_names(cli_groups()).contains("u"@)) by {
            assert(cli_groups()[1].0 == "u"@);
        }
    }
    match parse_options(&opts, args) {
        Err(f) => Err(CliError::BadOptions(fail_message(&f))),
        Ok(m) => {
            let interval_arg = opt_value(&m, "t");
            let url_arg = opt_value(&m, "u");
            config_from_opts(interval_arg, url_arg)
        },
    }
}

} // verus!
