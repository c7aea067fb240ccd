//! Command-line argument handling: recognizing the `-n` and help flags and
//! joining the remaining arguments into the message.

use vstd::prelude::*;

use crate::text::str_eq;

verus! {

/// Whether an argument is the flag that suppresses the trailing newline.
pub open spec fn is_n_flag(a: Seq<char>) -> bool {
    a == "-n"@
}

/// Whether an argument is one of the help flags.
pub open spec fn is_help_flag(a: Seq<char>) -> bool {
    a == "-h"@ || a == "--help"@
}

/// Whether the flag `-n` occurs among `args[i..]`.
pub open spec fn has_n_from(args: Seq<Seq<char>>, i: int) -> bool
    decreases args.len() - i,
{
    if i < 0 || i >= args.len() {
        false
    } else {
        is_n_flag(args[i]) || has_n_from(args, i + 1)
    }
}

/// Whether the flag `-n` occurs after the program name.
pub open spec fn no_newline_of(args: Seq<Seq<char>>) -> bool {
    has_n_from(args, 1)
}

/// The non-flag arguments among `args[i..]` joined with single spaces;
/// `started` tells whether an earlier part already needs a space after it.
pub open spec fn message_from(args: Seq<Seq<char>>, i: int, started: bool) -> Seq<char>
    decreases args.len() - i,
{
    if i < 0 || i >= args.len() {
        Seq::empty()
    } else if is_n_flag(args[i]) || is_help_flag(args[i]) {
        message_from(args, i + 1, started)
    } else {
        (if started {
            seq![' ']
        } else {
            Seq::empty()
        }) + args[i] + message_from(args, i + 1, true)
    }
}

/// The message: all arguments after the program name that are not flags,
/// joined with single spaces.
pub open spec fn message_of(args: Seq<Seq<char>>) -> Seq<char> {
    message_from(args, 1, false)
}

/// Extracts the newline flag and the space-joined message from the
/// argument list (the first argument is the program name; `-n`, `-h` and
/// `--help` are not part of the message).
pub fn parse_args(args: &[String]) -> (r: (bool, String))
    ensures
        r.0 == no_newline_of(args.deep_view()),
        r.1@ == message_of(args.deep_view()),
{
    let ghost adv = args.deep_view();
    let mut no_newline = false;
    let mut message = String::new();
    let mut started = false;
    let mut i: usize = 1;
    proof {
        assert(message@ + message_from(adv, 1, false) =~= message_from(adv, 1, false));
    }
    while i < args.len()
        invariant
            1 <= i,
            adv == args.deep_view(),
            adv.len() == args@.len(),
            no_newline_of(adv) == (no_newline || has_n_from(adv, i as int)),
            message_of(adv) == message@ + message_from(adv, i as int, started),
        decreases args.len() - i,
    {
        proof {
            assert(adv[i as int] == args@[i as int]@);
        }
        let ai = &args[i];
        if str_eq(ai.as_str(), "-n") {
            no_newline = true;
        } else if str_eq(ai.as_str(), "-h") || str_eq(ai.as_str(), "--help") {
        } else {
            let ghost pre = message@;
            let ghost rest = message_from(adv, i as int + 1, true);
            if started {
                proof {
                    reveal_strlit(" ");
                    assert(" "@ =~= seq![' ']);
                }
                message.append(" ");
                message.append(ai.as_str());
                proof {
                    assert((pre + (seq![' '] + adv[i as int])) + rest =~= pre + ((seq![' ']
                        + adv[i as int]) + rest));
                    assert(message@ =~= pre + (seq![' '] + adv[i as int]));
                }
            } else {
                message.append(ai.as_str());
                started = true;
                proof {
                    assert(Seq::<char>::empty() + adv[i as int] =~= adv[i as int]);
                    assert((pre + adv[i as int]) + rest =~= pre + (adv[i as int] + rest));
                }
            }
        }
        i += 1;
    }
    proof {
        assert(message@ + Seq::<char>::empty() =~= message@);
    }
    (no_newline, message)
}

} // verus!
