//! Checked run configuration: the length grammar, the nameserver list and
//! the defaults.
use vstd::prelude::*;
use crate::text::{chars_of, text_of, split_chars, split_on, char_views};
use crate::pattern::views;

verus! {

pub open spec fn is_digit(c: char) -> bool {
    '0' <= c && c <= '9'
}

pub open spec fn all_digits(s: Seq<char>) -> bool {
    forall|i: int| 0 <= i < s.len() ==> is_digit(#[trigger] s[i])
}

/// The number that a string of decimal digits spells.
pub open spec fn digits_value(s: Seq<char>) -> nat
    decreases s.len(),
{
    if s.len() == 0 {
        0
    } else {
        digits_value(s.drop_last()) * 10 + ((s.last() as u32) - 48) as nat
    }
}

/// What `usize::from_str` accepts: an optional `+`, then one or more decimal
/// digits whose value fits in a `usize`.
pub open spec fn parse_number(s: Seq<char>) -> Option<nat> {
    let body = if s.len() > 0 && s[0] == '+' { s.drop_first() } else { s };
    if body.len() > 0 && all_digits(body) && digits_value(body) <= usize::MAX {
        Some(digits_value(body))
    } else {
        None
    }
}

/// The length grammar: `N` gives `(N, N)` when `N` is above zero; `A-B` gives
/// `(A, B)` when both are above zero and `B > A`; anything else is rejected.
pub open spec fn length_range(s: Seq<char>) -> Option<(nat, nat)> {
    let parts = split_on(s, '-');
    if parts.len() == 1 {
        match parse_number(parts[0]) {
            Some(n) => if n >= 1 {
                Some((n, n))
            } else {
                None
            },
            None => None,
        }
    } else if parts.len() == 2 {
        match (parse_number(parts[0]), parse_number(parts[1])) {
            (Some(a), Some(b)) => if a != 0 && b != 0 && b > a {
                Some((a, b))
            } else {
                None
            },
            _ => None,
        }
    } else {
        None
    }
}

proof fn lemma_value_grows(s: Seq<char>, i: int)
    requires
        0 <= i <= s.len(),
        all_digits(s),
    ensures
        digits_value(s.subrange(0, i)) <= digits_value(s),
    decreases s.len() - i,
{
    if i < s.len() {
        let t = s.subrange(0, i + 1);
        assert(t.drop_last() =~= s.subrange(0, i));
        assert(is_digit(s[i]));
        lemma_value_grows(s, i + 1);
    } else {
        assert(s.subrange(0, i) =~= s);
    }
}

fn parse_digits(s: &Vec<char>, from: usize) -> (r: Option<usize>)
    requires
        from <= s@.len(),
    ensures
        ({
            let body = s@.subrange(from as int, s@.len() as int);
            match r {
                Some(n) => body.len() > 0 && all_digits(body) && n == digits_value(body),
                None => !(body.len() > 0 && all_digits(body) && digits_value(body) <= usize::MAX),
            }
        }),
{
    let ghost body = s@.subrange(from as int, s@.len() as int);
    if from == s.len() {
        return None;
    }
    let mut acc: usize = 0;
    let mut i: usize = from;
    assert(body.subrange(0, 0) =~= Seq::<char>::empty());
    while i < s.len()
        invariant
            from <= i <= s@.len(),
            body == s@.subrange(from as int, s@.len() as int),
            all_digits(body.subrange(0, i - from)),
            acc == digits_value(body.subrange(0, i - from)),
        decreases s@.len() - i,
    {
        let c = s[i];
        assert(body.subrange(0, i + 1 - from).drop_last() =~= body.subrange(0, i - from));
        if !('0' <= c && c <= '9') {
            assert(!is_digit(body[i - from]));
            return None;
        }
        let d = (c as u32 - 48) as usize;
        if acc > (usize::MAX - d) / 10 {
            proof {
                let ghost pre1 = body.subrange(0, i + 1 - from);
                assert(pre1.last() == c);
                assert(digits_value(pre1) == acc * 10 + d);
                if all_digits(body) {
                    lemma_value_grows(body, i + 1 - from);
                    assert(acc * 10 + d > usize::MAX) by (nonlinear_arith)
                        requires
                            acc > (usize::MAX - d) / 10,
                            d <= 9,
                    ;
                }
            }
            return None;
        }
        assert(acc * 10 + d <= usize::MAX) by (nonlinear_arith)
            requires
                acc <= (usize::MAX - d) / 10,
                d <= 9,
        ;
        acc = acc * 10 + d;
        i = i + 1;
        assert forall|k: int| 0 <= k < i - from implies is_digit(#[trigger] body.subrange(0, i - from)[k]) by {
            if k < i - 1 - from {
                assert(body.subrange(0, i - from)[k] == body.subrange(0, i - 1 - from)[k]);
            }
        }
    }
    assert(body.subrange(0, i - from) =~= body);
    Some(acc)
}

/// Parses a decimal number as `usize::from_str` does.
pub fn parse_number_chars(s: &Vec<char>) -> (r: Option<usize>)
    ensures
        match r {
            Some(n) => parse_number(s@) == Some(n as nat),
            None => parse_number(s@) is None,
        },
{
    if s.len() > 0 && s[0] == '+' {
        assert(s@.subrange(1, s@.len() as int) =~= s@.drop_first());
        parse_digits(s, 1)
    } else {
        assert(s@.subrange(0, s@.len() as int) =~= s@);
        parse_digits(s, 0)
    }
}

/// Why a configuration is refused.
#[derive(Debug, Clone, Copy, PartialEq, Eq, Structural)]
pub enum ArgsError {
    /// The length does not follow the grammar.
    InvalidLength,
    /// Neither a dictionary nor a length was given.
    MissingMode,
}

#[derive(Debug)]
/// The run's configuration.
pub struct AppArgs {
    /// The domain to enumerate.
    pub target: String,
    /// Dictionary mode; an empty path selects the built-in dictionary.
    pub dict_path: Option<String>,
    /// Brute-force length range; `(0, 0)` when none was given.
    pub length: (usize, usize),
    /// Where results are written.
    pub output_path: String,
    /// How many workers run.
    pub task_count: usize,
    /// Whether the wildcard check runs before the pipeline.
    pub check_wildcard: bool,
    /// Resolver addresses; empty for the built-in public resolver.
    pub nameserver_list: Vec<String>,
    /// Whether live hosts are probed over HTTP.
    pub fetch_title: bool,
}

pub open spec fn opt_chars(s: Option<String>) -> Option<Seq<char>> {
    match s {
        Some(t) => Some(t@),
        None => None,
    }
}

/// The range a length option gives: `(0, 0)` when it is absent.
pub open spec fn length_option(length: Option<Seq<char>>) -> Option<(nat, nat)> {
    match length {
        None => Some((0, 0)),
        Some(s) => length_range(s),
    }
}

impl AppArgs {
    /// Parses the length option by its grammar; `(0, 0)` when it is absent.
    pub fn parse_length(length: Option<&String>) -> (r: Result<(usize, usize), ArgsError>)
        ensures
            ({
                let spec_arg = match length {
                    Some(s) => Some(s@),
                    None => None,
                };
                match r {
                    Ok((a, b)) => length_option(spec_arg) == Some((a as nat, b as nat)),
                    Err(e) => length_option(spec_arg) is None && e == ArgsError::InvalidLength,
                }
            }),
    {
        let length = match length {
            None => {
                return Ok((0, 0));
            },
            Some(s) => s,
        };
        let parts = split_chars(&chars_of(length.as_str()), '-');
        assert(char_views(parts@)[0] == parts@[0]@);
        if parts.len() == 1 {
            match parse_number_chars(&parts[0]) {
                Some(n) => {
                    if n >= 1 {
                        Ok((n, n))
                    } else {
                        Err(ArgsError::InvalidLength)
                    }
                },
                None => Err(ArgsError::InvalidLength),
            }
        } else if parts.len() == 2 {
            assert(char_views(parts@)[1] == parts@[1]@);
            let a = parse_number_chars(&parts[0]);
            let b = parse_number_chars(&parts[1]);
            match (a, b) {
                (Some(a), Some(b)) => {
                    if a != 0 && b != 0 && b > a {
                        Ok((a, b))
                    } else {
                        Err(ArgsError::InvalidLength)
                    }
                },
                _ => Err(ArgsError::InvalidLength),
            }
        } else {
            Err(ArgsError::InvalidLength)
        }
    }

    /// Checks and completes the options: the length must follow its grammar,
    /// a dictionary or a length must be given, the output defaults to
    /// `<target>.txt`, and the nameserver option is split at commas.
    pub fn from_options(
        target: String,
        dict_path: Option<String>,
        length: Option<String>,
        output: Option<String>,
        nameserver: Option<String>,
        task_count: usize,
        check_wildcard: bool,
        fetch_title: bool,
    ) -> (r: Result<AppArgs, ArgsError>)
        ensures
            length_option(opt_chars(length)) is None ==> r == Err::<AppArgs, ArgsError>(ArgsError::InvalidLength),
            length_option(opt_chars(length)) matches Some(range) ==> {
                if dict_path is None && range == (0nat, 0nat) {
                    r == Err::<AppArgs, ArgsError>(ArgsError::MissingMode)
                } else {
                    r matches Ok(a) && a.target == target && a.dict_path == dict_path
                        && a.length.0 == range.0 && a.length.1 == range.1
                        && a.output_path@ == match output {
                            Some(o) => o@,
                            None => target@ + ".txt"@,
                        }
                        && views(a.nameserver_list@) == match nameserver {
                            Some(n) => split_on(n@, ','),
                            None => Seq::<Seq<char>>::empty(),
                        }
                        && a.task_count == task_count && a.check_wildcard == check_wildcard
                        && a.fetch_title == fetch_title
                }
            },
    {
        let range = match Self::parse_length(length.as_ref()) {
            Ok(range) => range,
            Err(e) => {
                return Err(e);
            },
        };
        if dict_path.is_none() && range.0 == 0 && range.1 == 0 {
            return Err(ArgsError::MissingMode);
        }
        let output_path = match output {
            Some(o) => o,
            None => target.clone().concat(".txt"),
        };
        let mut nameserver_list: Vec<String> = Vec::new();
        match nameserver {
            Some(n) => {
                let parts = split_chars(&chars_of(n.as_str()), ',');
                let mut i: usize = 0;
                while i < parts.len()
                    invariant
                        i <= parts@.len(),
                        nameserver_list@.len() == i,
                        forall|k: int| 0 <= k < i ==> #[trigger] nameserver_list@[k]@ == parts@[k]@,
                    decreases parts@.len() - i,
                {
                    nameserver_list.push(text_of(&parts[i]));
                    i = i + 1;
                }
                assert(views(nameserver_list@) =~= char_views(parts@));
            },
            None => {
                assert(views(nameserver_list@) =~= Seq::<Seq<char>>::empty());
            },
        }
        Ok(AppArgs {
            target,
            dict_path,
            length: range,
            output_path,
            task_count,
            check_wildcard,
            nameserver_list,
            fetch_title,
        })
    }
}

} // verus!
