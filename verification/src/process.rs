//! Planning the child process: split the start command into tokens
//! and inject the assigned port by flag or environment variable.

use vstd::prelude::*;

use crate::codec::is_ws;
use crate::detect::{PortStrategy, PortStrategyView};
use crate::strutil::{chars_to_string, dec_digits, string_to_chars, u64_to_dec};

verus! {

/// The whitespace-separated tokens of `s` from position `i` on, with
/// `cur` the token being gathered.
pub open spec fn split_acc(s: Seq<char>, i: int, cur: Seq<char>) -> Seq<Seq<char>>
    decreases s.len() - i,
{
    if i < 0 || i >= s.len() {
        if cur.len() > 0 {
            seq![cur]
        } else {
            Seq::empty()
        }
    } else if is_ws(s[i]) {
        (if cur.len() > 0 {
            seq![cur]
        } else {
            Seq::empty()
        }) + split_acc(s, i + 1, Seq::empty())
    } else {
        split_acc(s, i + 1, cur.push(s[i]))
    }
}

/// The whitespace-separated tokens of `s`.
pub open spec fn split_ws(s: Seq<char>) -> Seq<Seq<char>> {
    split_acc(s, 0, Seq::empty())
}

/// The views of a vector of strings.
pub open spec fn strings_view(v: Seq<String>) -> Seq<Seq<char>> {
    Seq::new(v.len(), |i: int| v[i]@)
}

/// Split a command into its whitespace-separated tokens.
pub fn split_command(command: &str) -> (r: Vec<String>)
    ensures
        strings_view(r@) == split_ws(command@),
{
    let v = string_to_chars(command);
    let mut out: Vec<String> = Vec::new();
    let mut cur: Vec<char> = Vec::new();
    let mut i: usize = 0;
    while i < v.len()
        invariant
            0 <= i <= v.len(),
            v@ == command@,
            split_ws(command@) == strings_view(out@) + split_acc(v@, i as int, cur@),
        decreases v.len() - i,
    {
        let c = v[i];
        if c == ' ' || c == '\t' || c == '\n' || c == '\r' {
            proof {
                assert(is_ws(v@[i as int]));
            }
            if cur.len() > 0 {
                let tok = chars_to_string(&cur);
                proof {
                    let old_out = out@;
                    let items = split_acc(v@, i as int + 1, Seq::<char>::empty());
                    assert(split_acc(v@, i as int, cur@) == seq![cur@] + items);
                    assert(strings_view(old_out.push(tok)) =~= strings_view(old_out).push(
                        cur@,
                    ));
                    assert(strings_view(old_out) + (seq![cur@] + items) =~= strings_view(
                        old_out.push(tok),
                    ) + items);
                }
                out.push(tok);
                cur = Vec::new();
                proof {
                    assert(split_ws(command@) == strings_view(out@) + split_acc(
                        v@,
                        i as int + 1,
                        cur@,
                    ));
                }
            } else {
                proof {
                    assert(cur@ =~= Seq::<char>::empty());
                    assert(split_acc(v@, i as int, cur@) == Seq::<Seq<char>>::empty()
                        + split_acc(v@, i as int + 1, Seq::<char>::empty()));
                    assert(Seq::<Seq<char>>::empty() + split_acc(
                        v@,
                        i as int + 1,
                        Seq::<char>::empty(),
                    ) =~= split_acc(v@, i as int + 1, Seq::<char>::empty()));
                    assert(split_ws(command@) == strings_view(out@) + split_acc(
                        v@,
                        i as int + 1,
                        cur@,
                    ));
                }
            }
        } else {
            proof {
                assert(!is_ws(v@[i as int]));
                assert(split_acc(v@, i as int, cur@) == split_acc(
                    v@,
                    i as int + 1,
                    cur@.push(c),
                ));
            }
            cur.push(c);
            proof {
                assert(split_ws(command@) == strings_view(out@) + split_acc(
                    v@,
                    i as int + 1,
                    cur@,
                ));
            }
        }
        i += 1;
    }
    if cur.len() > 0 {
        let tok = chars_to_string(&cur);
        proof {
            let old_out = out@;
            assert(split_acc(v@, v@.len() as int, cur@) == seq![cur@]);
            assert(strings_view(old_out.push(tok)) =~= strings_view(old_out).push(cur@));
            assert(strings_view(old_out) + seq![cur@] =~= strings_view(old_out.push(tok)));
        }
        out.push(tok);
    } else {
        proof {
            assert(split_acc(v@, v@.len() as int, cur@) == Seq::<Seq<char>>::empty());
            assert(strings_view(out@) + Seq::<Seq<char>>::empty() =~= strings_view(out@));
        }
    }
    out
}

/// A planned child process: the program, its arguments, and an
/// environment variable to set, the port already injected.
#[derive(Debug)]
pub struct CommandPlan {
    pub program: String,
    pub args: Vec<String>,
    pub env: Option<(String, String)>,
}

/// How the port is injected, given the configuration overrides and
/// the detected strategy: a configured flag wins, then a configured
/// environment variable, then the detected strategy; a flag ending
/// in a colon takes the port appended directly, any other flag is
/// followed by the port as its own argument.
pub open spec fn plan_matches(
    plan: CommandPlan,
    toks: Seq<Seq<char>>,
    port: u16,
    strategy: PortStrategyView,
    env_override: Option<Seq<char>>,
    arg_override: Option<Seq<char>>,
) -> bool {
    &&& toks.len() > 0
    &&& plan.program@ == toks[0]
    &&& {
        let base = toks.skip(1);
        let digits = dec_digits(port as nat);
        match arg_override {
            Some(a) => {
                &&& strings_view(plan.args@) == base + seq![a, digits]
                &&& plan.env is None
            },
            None => match env_override {
                Some(e) => {
                    &&& strings_view(plan.args@) == base
                    &&& plan.env matches Some(p) && p.0@ == e && p.1@ == digits
                },
                None => match strategy {
                    PortStrategyView::EnvVar(v) => {
                        &&& strings_view(plan.args@) == base
                        &&& plan.env matches Some(p) && p.0@ == v && p.1@ == digits
                    },
                    PortStrategyView::CliFlag(f) => {
                        &&& plan.env is None
                        &&& if f.len() > 0 && f.last() == ':' {
                            strings_view(plan.args@) == base + seq![f + digits]
                        } else {
                            strings_view(plan.args@) == base + seq![f, digits]
                        }
                    },
                },
            },
        }
    }
}

/// Plan the child process for a start command. `None` exactly when
/// the command has no tokens.
pub fn plan_spawn(
    command: &str,
    port: u16,
    strategy: &PortStrategy,
    env_override: Option<&str>,
    arg_override: Option<&str>,
) -> (r: Option<CommandPlan>)
    ensures
        match r {
            Some(plan) => plan_matches(
                plan,
                split_ws(command@),
                port,
                strategy@,
                match env_override {
                    Some(e) => Some(e@),
                    None => None,
                },
                match arg_override {
                    Some(a) => Some(a@),
                    None => None,
                },
            ),
            None => split_ws(command@).len() == 0,
        },
{
    let mut toks = split_command(command);
    if toks.len() == 0 {
        return None;
    }
    let ghost tokviews = strings_view(toks@);
    let program = toks.remove(0);
    proof {
        assert(strings_view(toks@) =~= tokviews.skip(1));
        assert(program@ == tokviews[0]);
    }
    let digits = u64_to_dec(port as u64);
    match arg_override {
        Some(a) => {
            let ghost base = strings_view(toks@);
            toks.push(a.to_owned());
            toks.push(digits);
            proof {
                assert(strings_view(toks@) =~= base + seq![a@, dec_digits(port as nat)]);
            }
            return Some(CommandPlan { program, args: toks, env: None });
        },
        None => {},
    }
    match env_override {
        Some(e) => {
            return Some(
                CommandPlan { program, args: toks, env: Some((e.to_owned(), digits)) },
            );
        },
        None => {},
    }
    match strategy {
        PortStrategy::EnvVar(v) => Some(
            CommandPlan { program, args: toks, env: Some((v.clone(), digits)) },
        ),
        PortStrategy::CliFlag(f) => {
            let fv = string_to_chars(f.as_str());
            if fv.len() > 0 && fv[fv.len() - 1] == ':' {
                let ghost base = strings_view(toks@);
                let mut joined = f.clone();
                joined.append(digits.as_str());
                toks.push(joined);
                proof {
                    assert(fv@.last() == ':');
                    assert(strings_view(toks@) =~= base + seq![f@ + dec_digits(port as nat)]);
                }
                Some(CommandPlan { program, args: toks, env: None })
            } else {
                let ghost base = strings_view(toks@);
                toks.push(f.clone());
                toks.push(digits);
                proof {
                    assert(strings_view(toks@) =~= base + seq![f@, dec_digits(port as nat)]);
                }
                Some(CommandPlan { program, args: toks, env: None })
            }
        },
    }
}

} // verus!
