//! The run's arguments, parsed and validated from plain tokens.
//!
//! The surrounding program hands the command-line tokens over as
//! strings; parsing decides which are flags, which are scan-root paths,
//! and whether the combination is allowed: at most one of the five
//! mutating actions may be chosen, and an action demands
//! `--find-clones`.

use vstd::prelude::*;

verus! {

/// The validated arguments of one run.
#[derive(Debug)]
pub struct Args {
    /// How talkative the surrounding program should be; counts the
    /// verbosity flag's occurrences, up to its greatest value.
    pub verbose: u8,
    /// Report the duplicates (clones) side of each pair.
    pub find_clones: bool,
    /// Report the originals (cloned) side of each pair.
    pub find_cloned: bool,
    /// Report files that are neither original nor duplicate.
    pub find_uniques: bool,
    /// Print results without mutating anything.
    pub print: bool,
    /// Remove each duplicate's file.
    pub delete: bool,
    /// Hand each duplicate to the recycle sink.
    pub recycle: bool,
    /// Hand each duplicate to the secure-overwrite sink.
    pub shred: bool,
    /// Replace each duplicate with a symbolic link.
    pub symlink: bool,
    /// Replace each duplicate with a hard link.
    pub hardlink: bool,
    /// The scan roots, in the order given.
    pub paths: Vec<String>,
}

/// Why the argument list was rejected.
#[derive(Clone, Copy, Debug, PartialEq, Eq, Structural)]
pub enum ArgsError {
    /// A token began with `-` but is no flag of this program.
    UnknownFlag,
    /// Two or more of the five mutating actions were chosen.
    ConflictingActions,
    /// A mutating action was chosen without `--find-clones`.
    ActionRequiresFindClones,
}

/// The views of a run of argument tokens, in order.
pub open spec fn arg_views(argv: Seq<String>) -> Seq<Seq<char>> {
    argv.map_values(|s: String| s@)
}

/// The token asks for one more step of verbosity.
pub open spec fn is_verbose_flag(t: Seq<char>) -> bool {
    t == "-v"@ || t == "--verbose"@
}

/// The token is one of this program's flags.
pub open spec fn is_known_flag(t: Seq<char>) -> bool {
    ||| is_verbose_flag(t)
    ||| t == "--find-cloned"@
    ||| t == "--find-clones"@
    ||| t == "--find-uniques"@
    ||| t == "--print"@
    ||| t == "--delete"@
    ||| t == "--recycle"@
    ||| t == "--shred"@
    ||| t == "--symlink"@
    ||| t == "--hardlink"@
}

/// The token is taken as a scan-root path.
pub open spec fn is_path_token(t: Seq<char>) -> bool {
    !(t.len() > 0 && t[0] == '-')
}

/// The token looks like a flag but is none of this program's.
pub open spec fn is_unknown_flag(t: Seq<char>) -> bool {
    t.len() > 0 && t[0] == '-' && !is_known_flag(t)
}

/// How often verbosity was asked for.
pub open spec fn count_verbose(argv: Seq<Seq<char>>) -> nat
    decreases argv.len(),
{
    if argv.len() == 0 {
        0
    } else {
        count_verbose(argv.drop_last()) + if is_verbose_flag(argv.last()) {
            1nat
        } else {
            0nat
        }
    }
}

/// Whether the flag `name` occurs.
pub open spec fn has_flag(argv: Seq<Seq<char>>, name: Seq<char>) -> bool
    decreases argv.len(),
{
    if argv.len() == 0 {
        false
    } else {
        has_flag(argv.drop_last(), name) || argv.last() == name
    }
}

/// The path tokens, in order.
pub open spec fn path_tokens(argv: Seq<Seq<char>>) -> Seq<Seq<char>>
    decreases argv.len(),
{
    if argv.len() == 0 {
        Seq::empty()
    } else {
        path_tokens(argv.drop_last()) + if is_path_token(argv.last()) {
            seq![argv.last()]
        } else {
            Seq::empty()
        }
    }
}

/// Whether any token looks like a flag of another program.
pub open spec fn has_unknown_flag(argv: Seq<Seq<char>>) -> bool
    decreases argv.len(),
{
    if argv.len() == 0 {
        false
    } else {
        has_unknown_flag(argv.drop_last()) || is_unknown_flag(argv.last())
    }
}

/// How many of the five mutating actions were chosen.
pub open spec fn action_count(argv: Seq<Seq<char>>) -> int {
    (if has_flag(argv, "--delete"@) {
        1int
    } else {
        0int
    }) + (if has_flag(argv, "--recycle"@) {
        1int
    } else {
        0int
    }) + (if has_flag(argv, "--shred"@) {
        1int
    } else {
        0int
    }) + (if has_flag(argv, "--symlink"@) {
        1int
    } else {
        0int
    }) + (if has_flag(argv, "--hardlink"@) {
        1int
    } else {
        0int
    })
}

/// Whether any of the five mutating actions was chosen.
pub open spec fn any_action(argv: Seq<Seq<char>>) -> bool {
    ||| has_flag(argv, "--delete"@)
    ||| has_flag(argv, "--recycle"@)
    ||| has_flag(argv, "--shred"@)
    ||| has_flag(argv, "--symlink"@)
    ||| has_flag(argv, "--hardlink"@)
}

/// The error an argument list earns, if any: an unknown flag is caught
/// while scanning, before the flag combination is judged.
pub open spec fn clap_err(argv: Seq<Seq<char>>) -> Option<ArgsError> {
    if has_unknown_flag(argv) {
        Some(ArgsError::UnknownFlag)
    } else if action_count(argv) > 1 {
        Some(ArgsError::ConflictingActions)
    } else if any_action(argv) && !has_flag(argv, "--find-clones"@) {
        Some(ArgsError::ActionRequiresFindClones)
    } else {
        None
    }
}

/// What an accepted argument list yields.
pub open spec fn args_match(argv: Seq<Seq<char>>, a: Args) -> bool {
    &&& a.verbose as nat == (if count_verbose(argv) >= 255 {
        255nat
    } else {
        count_verbose(argv)
    })
    &&& a.find_clones == has_flag(argv, "--find-clones"@)
    &&& a.find_cloned == has_flag(argv, "--find-cloned"@)
    &&& a.find_uniques == has_flag(argv, "--find-uniques"@)
    &&& a.print == has_flag(argv, "--print"@)
    &&& a.delete == has_flag(argv, "--delete"@)
    &&& a.recycle == has_flag(argv, "--recycle"@)
    &&& a.shred == has_flag(argv, "--shred"@)
    &&& a.symlink == has_flag(argv, "--symlink"@)
    &&& a.hardlink == has_flag(argv, "--hardlink"@)
    &&& arg_views(a.paths@) == path_tokens(argv)
}

/// A token that occurs in the list makes `has_unknown_flag` true.
proof fn lemma_has_unknown_at(argv: Seq<Seq<char>>, i: int)
    requires
        0 <= i < argv.len(),
        is_unknown_flag(argv[i]),
    ensures
        has_unknown_flag(argv),
    decreases argv.len(),
{
    if i < argv.len() - 1 {
        lemma_has_unknown_at(argv.drop_last(), i);
    }
}

/// Compares a token with a flag's spelling.
fn str_eq(a: &String, b: &str) -> (r: bool)
    ensures
        r == (a@ == b@),
{
    *a == b.to_owned()
}

/// Whether the token begins like a flag.
fn starts_with_dash(a: &String) -> (r: bool)
    ensures
        r == !is_path_token(a@),
{
    let s = a.as_str();
    if s.unicode_len() > 0 {
        s.get_char(0) == '-'
    } else {
        false
    }
}

/// Parses and validates the command-line tokens of one run.
///
/// Scans the tokens in order: verbosity counts, each known flag sets
/// its field, any other token beginning with `-` is rejected at once,
/// and every remaining token is kept as a scan-root path in order.
/// After the scan, choosing two mutating actions is rejected, then a
/// mutating action without `--find-clones`.
#[verifier::loop_isolation(false)]
pub fn clap(argv: Vec<String>) -> (r: Result<Args, ArgsError>)
    ensures
        match r {
            Ok(a) => clap_err(arg_views(argv@)) is None && args_match(arg_views(argv@), a),
            Err(e) => clap_err(arg_views(argv@)) == Some(e),
        },
{
    proof {
        reveal_strlit("-v");
        reveal_strlit("--verbose");
        reveal_strlit("--find-cloned");
        reveal_strlit("--find-clones");
        reveal_strlit("--find-uniques");
        reveal_strlit("--print");
        reveal_strlit("--delete");
        reveal_strlit("--recycle");
        reveal_strlit("--shred");
        reveal_strlit("--symlink");
        reveal_strlit("--hardlink");
        // flags of equal spelt length differ in some character
        assert("--verbose"@[2] == 'v' && "--recycle"@[2] == 'r' && "--symlink"@[2] == 's');
        assert("--print"@[2] == 'p' && "--shred"@[2] == 's');
        assert("--find-clones"@[12] == 's' && "--find-cloned"@[12] == 'd');
    }
    let ghost views = arg_views(argv@);
    let mut verbose: u8 = 0;
    let mut find_clones: bool = false;
    let mut find_cloned: bool = false;
    let mut find_uniques: bool = false;
    let mut print: bool = false;
    let mut delete: bool = false;
    let mut recycle: bool = false;
    let mut shred: bool = false;
    let mut symlink: bool = false;
    let mut hardlink: bool = false;
    let mut paths: Vec<String> = Vec::new();
    proof {
        assert(views.take(0) =~= Seq::<Seq<char>>::empty());
        assert(arg_views(paths@) =~= path_tokens(views.take(0)));
    }
    let mut i: usize = 0;
    while i < argv.len()
        invariant
            i <= argv@.len(),
            views == arg_views(argv@),
            views.len() == argv@.len(),
            verbose as nat == (if count_verbose(views.take(i as int)) >= 255 {
                255nat
            } else {
                count_verbose(views.take(i as int))
            }),
            find_clones == has_flag(views.take(i as int), "--find-clones"@),
            find_cloned == has_flag(views.take(i as int), "--find-cloned"@),
            find_uniques == has_flag(views.take(i as int), "--find-uniques"@),
            print == has_flag(views.take(i as int), "--print"@),
            delete == has_flag(views.take(i as int), "--delete"@),
            recycle == has_flag(views.take(i as int), "--recycle"@),
            shred == has_flag(views.take(i as int), "--shred"@),
            symlink == has_flag(views.take(i as int), "--symlink"@),
            hardlink == has_flag(views.take(i as int), "--hardlink"@),
            arg_views(paths@) == path_tokens(views.take(i as int)),
            !has_unknown_flag(views.take(i as int)),
        decreases argv@.len() - i,
    {
        let ghost pre = views.take(i as int);
        let ghost pre2 = views.take(i as int + 1);
        proof {
            assert(pre2.drop_last() =~= pre);
            assert(pre2.last() == views[i as int]);
            assert(views[i as int] == argv@[i as int]@);
        }
        let tok = &argv[i];
        if str_eq(tok, "-v") || str_eq(tok, "--verbose") {
            if verbose < 255 {
                verbose += 1;
            }
        } else if str_eq(tok, "--find-cloned") {
            find_cloned = true;
        } else if str_eq(tok, "--find-clones") {
            find_clones = true;
        } else if str_eq(tok, "--find-uniques") {
            find_uniques = true;
        } else if str_eq(tok, "--print") {
            print = true;
        } else if str_eq(tok, "--delete") {
            delete = true;
        } else if str_eq(tok, "--recycle") {
            recycle = true;
        } else if str_eq(tok, "--shred") {
            shred = true;
        } else if str_eq(tok, "--symlink") {
            symlink = true;
        } else if str_eq(tok, "--hardlink") {
            hardlink = true;
        } else if starts_with_dash(tok) {
            proof {
                lemma_has_unknown_at(views, i as int);
            }
            return Err(ArgsError::UnknownFlag);
        } else {
            let ghost paths_before = paths@;
            paths.push(tok.clone());
            proof {
                assert(arg_views(paths@) =~= arg_views(paths_before) + seq![tok@]);
                assert(path_tokens(pre2) =~= path_tokens(pre) + seq![tok@]);
            }
        }
        i += 1;
    }
    proof {
        assert(views.take(views.len() as int) =~= views);
    }
    let action_total: u32 = (if delete {
        1
    } else {
        0
    }) + (if recycle {
        1
    } else {
        0
    }) + (if shred {
        1
    } else {
        0
    }) + (if symlink {
        1
    } else {
        0
    }) + (if hardlink {
        1
    } else {
        0
    });
    if action_total > 1 {
        return Err(ArgsError::ConflictingActions);
    }
    if (delete || recycle || shred || symlink || hardlink) && !find_clones {
        return Err(ArgsError::ActionRequiresFindClones);
    }
    Ok(
        Args {
            verbose,
            find_clones,
            find_cloned,
            find_uniques,
            print,
            delete,
            recycle,
            shred,
            symlink,
            hardlink,
            paths,
        },
    )
}

} // verus!
