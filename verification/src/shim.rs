//! The gamescope shim: splitting the argument vector it was invoked with,
//! and composing the argument list for the real compositor binary.

use vstd::prelude::*;

use crate::shell::{shell_words, split_shell_words};

verus! {

/// The index of the first separator token, or the length if none occurs.
pub open spec fn spec_find_sep(s: Seq<Seq<char>>, i: int) -> int
    decreases s.len() - i,
{
    if i < 0 || i >= s.len() {
        s.len() as int
    } else if s[i] == "--"@ {
        i
    } else {
        spec_find_sep(s, i + 1)
    }
}

/// Split an invocation's arguments (the leading program name skipped) at the
/// first separator into compositor arguments and the wrapped command.
pub fn parse_gamescope_args(args: Vec<String>) -> (r: (Vec<String>, Vec<String>))
    ensures
        args@.len() == 0 ==> r.0.deep_view() == Seq::<Seq<char>>::empty() && r.1.deep_view()
            == Seq::<Seq<char>>::empty(),
        args@.len() >= 1 ==> ({
            let av = args.deep_view();
            let d = spec_find_sep(av, 1);
            r.0.deep_view() == av.subrange(1, d) && r.1.deep_view() == (if d < av.len() {
                av.subrange(d + 1, av.len() as int)
            } else {
                Seq::<Seq<char>>::empty()
            })
        }),
{
    let mut gamescope_args: Vec<String> = Vec::new();
    let mut command: Vec<String> = Vec::new();
    let n: usize = args.len();
    if n == 0 {
        proof {
            assert(gamescope_args.deep_view() =~= Seq::<Seq<char>>::empty());
            assert(command.deep_view() =~= Seq::<Seq<char>>::empty());
        }
        return (gamescope_args, command);
    }
    let ghost av = args.deep_view();
    // Find the separator among the arguments after the program name.
    let mut sep: usize = n;
    let mut i: usize = 1;
    while i < n && sep == n
        invariant
            n == args@.len(),
            n >= 1,
            av == args.deep_view(),
            av.len() == n,
            1 <= i <= n,
            1 <= sep <= n,
            sep == n ==> spec_find_sep(av, 1) == spec_find_sep(av, i as int),
            sep < n ==> spec_find_sep(av, 1) == sep,
        decreases n - i, (if sep == n { 1int } else { 0int }),
    {
        proof {
            assert(av[i as int] == args@[i as int]@);
        }
        if crate::text::str_eq(args[i].as_str(), "--") {
            proof {
                assert(spec_find_sep(av, i as int) == i);
            }
            sep = i;
        } else {
            proof {
                assert(spec_find_sep(av, i as int) == spec_find_sep(av, i + 1));
            }
        }
        i = i + 1;
    }
    let ghost d = spec_find_sep(av, 1);
    proof {
        if sep == n {
            assert(spec_find_sep(av, n as int) == av.len());
            assert(d == av.len());
        } else {
            assert(d == sep);
        }
    }
    let hi: usize = if sep < n {
        sep
    } else {
        n
    };
    let mut k: usize = 1;
    while k < hi
        invariant
            n == args@.len(),
            av == args.deep_view(),
            av.len() == n,
            hi <= n,
            1 <= k <= hi,
            gamescope_args@ == args@.subrange(1, k as int),
        decreases hi - k,
    {
        let x = args[k].clone();
        proof {
            assert(x == args@[k as int]);
        }
        gamescope_args.push(x);
        proof {
            assert(gamescope_args@ =~= args@.subrange(1, k + 1));
        }
        k = k + 1;
    }
    proof {
        assert(gamescope_args@ == args@.subrange(1, hi as int));
        assert(hi as int == (if d < n { d } else { n as int }));
        assert forall|j: int|
            0 <= j < hi - 1 implies #[trigger] gamescope_args.deep_view()[j] == av.subrange(
            1,
            hi as int,
        )[j] by {
            assert(gamescope_args@[j] == args@.subrange(1, hi as int)[j]);
            assert(args@.subrange(1, hi as int)[j] == args@[j + 1]);
            assert(gamescope_args.deep_view()[j] == gamescope_args@[j]@);
            assert(av[j + 1] == args@[j + 1]@);
        }
        assert(gamescope_args.deep_view() =~= av.subrange(1, hi as int));
        assert(gamescope_args.deep_view() =~= av.subrange(1, d));
    }
    if sep < n {
        let mut k: usize = sep + 1;
        while k < n
            invariant
                n == args@.len(),
                av == args.deep_view(),
                av.len() == n,
                sep < n,
                d == sep,
                sep + 1 <= k <= n,
                command@ == args@.subrange(sep + 1, k as int),
            decreases n - k,
        {
            let x = args[k].clone();
            proof {
                assert(x == args@[k as int]);
            }
            command.push(x);
            proof {
                assert(command@ =~= args@.subrange(sep + 1, k + 1));
            }
            k = k + 1;
        }
        proof {
            assert(command@ == args@.subrange(sep + 1, n as int));
            assert forall|j: int|
                0 <= j < n - sep - 1 implies #[trigger] command.deep_view()[j] == av.subrange(
                d + 1,
                n as int,
            )[j] by {
                assert(command@[j] == args@.subrange(sep + 1, n as int)[j]);
                assert(args@.subrange(sep + 1, n as int)[j] == args@[j + sep + 1]);
                assert(command.deep_view()[j] == command@[j]@);
                assert(av[j + sep + 1] == args@[j + sep + 1]@);
            }
            assert(command.deep_view() =~= av.subrange(d + 1, n as int));
        }
    } else {
        proof {
            assert(command.deep_view() =~= Seq::<Seq<char>>::empty());
        }
    }
    (gamescope_args, command)
}

/// Compose the argument list handed to the real compositor binary: the
/// compositor arguments; then, only when a wrapped command follows, the
/// separator, an inline environment segment carrying the preload list when
/// one resolves, the pre-command's words where they split, and the command.
pub fn compose_shim_args(
    gamescope_args: Vec<String>,
    command: Vec<String>,
    ld_preload: Option<String>,
    pre_command: Option<&String>,
) -> (r: Vec<String>)
    ensures
        r.deep_view() == gamescope_args.deep_view() + (if command@.len() > 0 {
            seq!["--"@] + (match ld_preload {
                Some(l) => seq!["env"@, "LD_PRELOAD="@ + l@],
                None => Seq::<Seq<char>>::empty(),
            }) + (match pre_command {
                Some(p) => match shell_words(p@) {
                    Some(ws) => ws,
                    None => Seq::<Seq<char>>::empty(),
                },
                None => Seq::<Seq<char>>::empty(),
            }) + command.deep_view()
        } else {
            Seq::<Seq<char>>::empty()
        }),
{
    let mut out = gamescope_args;
    let ghost base = out.deep_view();
    if command.len() > 0 {
        out.push(String::from_str("--"));
        match ld_preload {
            Some(l) => {
                out.push(String::from_str("env"));
                let mut s = String::from_str("LD_PRELOAD=");
                s.append(l.as_str());
                out.push(s);
            },
            None => {},
        }
        match pre_command {
            Some(p) => {
                match split_shell_words(p.as_str()) {
                    Some(ws) => {
                        let mut ws = ws;
                        out.append(&mut ws);
                    },
                    None => {},
                }
            },
            None => {},
        }
        let mut command = command;
        let ghost cmdv = command.deep_view();
        out.append(&mut command);
        proof {
            assert(out.deep_view() =~= base + (seq!["--"@] + (match ld_preload {
                Some(l) => seq!["env"@, "LD_PRELOAD="@ + l@],
                None => Seq::<Seq<char>>::empty(),
            }) + (match pre_command {
                Some(p) => match shell_words(p@) {
                    Some(ws) => ws,
                    None => Seq::<Seq<char>>::empty(),
                },
                None => Seq::<Seq<char>>::empty(),
            }) + cmdv));
        }
    } else {
        proof {
            assert(out.deep_view() =~= base + Seq::<Seq<char>>::empty());
        }
    }
    out
}

/// Combine the policy's compositor-argument string with the arguments of
/// the invocation itself: the configured string's shell words come first
/// (none when the wrapper is disabled, unset, or unsplittable), the
/// invocation's arguments follow.
pub fn combine_gamescope_args(
    enabled: bool,
    config_args: Option<&String>,
    cli_args: Vec<String>,
) -> (r: Vec<String>)
    ensures
        r.deep_view() == (if enabled {
            match config_args {
                Some(a) => match shell_words(a@) {
                    Some(ws) => ws,
                    None => Seq::<Seq<char>>::empty(),
                },
                None => Seq::<Seq<char>>::empty(),
            }
        } else {
            Seq::<Seq<char>>::empty()
        }) + cli_args.deep_view(),
{
    let mut out: Vec<String> = if enabled {
        match config_args {
            Some(a) => match split_shell_words(a.as_str()) {
                Some(ws) => ws,
                None => Vec::new(),
            },
            None => Vec::new(),
        }
    } else {
        Vec::new()
    };
    let ghost head = out.deep_view();
    proof {
        if !(enabled && config_args is Some && shell_words(config_args->0@) is Some) {
            assert(head =~= Seq::<Seq<char>>::empty());
        }
    }
    let mut cli_args = cli_args;
    let ghost cliv = cli_args.deep_view();
    out.append(&mut cli_args);
    proof {
        assert(out.deep_view() =~= head + cliv);
    }
    out
}

} // verus!
