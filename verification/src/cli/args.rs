//! The arguments of `classic spawn`.
use crate::cli::error::{CliErr, CliErrView};
use crate::scan::{trim, trimmed};
use crate::text::{chars_of, quote, quoted, text_eq, texts};
use vstd::prelude::*;
use vstd::string::StringExecFns;

verus! {

/// The arguments of `classic spawn`.
#[derive(Debug)]
pub struct SpawnArgs {
    /// The predicate that a node must meet. Empty is forbidden: pass `true` for
    /// any node.
    pub requires: String,
    /// The expression that ranks the nodes.
    pub rank: Option<String>,
    /// Mark every acquired device exclusive.
    pub exclusive_device: bool,
    /// The file that the child reads as its standard input; `-` for that of
    /// the command line itself.
    pub stdin: Option<String>,
    /// `KEY=VAL` entries.
    pub env: Vec<String>,
    /// The child's argv.
    pub argv: Vec<String>,
}

/// The first entry without `=`.
pub open spec fn first_bad(env: Seq<Seq<char>>) -> Option<Seq<char>>
    decreases env.len(),
{
    if env.len() == 0 {
        None
    } else if !env[0].contains('=') {
        Some(env[0])
    } else {
        first_bad(env.skip(1))
    }
}

/// Why the arguments are refused; `stdin_exists` says whether the file given
/// for the standard input is there.
pub open spec fn objection(args: SpawnArgs, stdin_exists: bool) -> Option<Seq<char>> {
    if trimmed(args.requires@).len() == 0 {
        Some("--requires must be a non-empty predicate (use \"true\" for any node)"@)
    } else if args.argv@.len() == 0 {
        Some("argv after `--` must have at least one element"@)
    } else if first_bad(texts(args.env@)) is Some {
        Some(
            "--env entry "@ + quoted(first_bad(texts(args.env@))->Some_0)
                + " must be of the form KEY=VAL"@,
        )
    } else if args.stdin is Some && args.stdin->Some_0@ != "-"@ && !stdin_exists {
        Some(
            "--stdin file "@ + quoted(args.stdin->Some_0@)
                + " does not exist (use \"-\" to inherit stdin)"@,
        )
    } else {
        None
    }
}

/// Whether the character occurs in the text.
fn has_char(s: &str, c: char) -> (r: bool)
    ensures
        r == s@.contains(c),
{
    let v = chars_of(s);
    let mut i: usize = 0;
    while i < v.len()
        invariant
            i <= v@.len(),
            v@ == s@,
            forall|k: int| 0 <= k < i ==> v@[k] != c,
        decreases v@.len() - i,
    {
        if v[i] == c {
            assert(s@[i as int] == c);
            return true;
        }
        i = i + 1;
    }
    false
}

/// Refuse arguments that no daemon could make sense of.
pub fn validate_spawn_args(args: &SpawnArgs, stdin_exists: bool) -> (r: Result<(), CliErr>)
    ensures
        match objection(*args, stdin_exists) {
            None => r is Ok,
            Some(m) => r is Err && r->Err_0@ == CliErrView::Usage(m),
        },
{
    if trim(&chars_of(args.requires.as_str())).len() == 0 {
        return Err(
            CliErr::Usage(
                "--requires must be a non-empty predicate (use \"true\" for any node)".to_owned(),
            ),
        );
    }
    if args.argv.len() == 0 {
        return Err(
            CliErr::Usage("argv after `--` must have at least one element".to_owned()),
        );
    }
    let ghost all = texts(args.env@);
    let mut i: usize = 0;
    assert(all.skip(0) =~= all);
    while i < args.env.len()
        invariant
            i <= args.env@.len(),
            all == texts(args.env@),
            first_bad(all) == first_bad(all.skip(i as int)),
            trimmed(args.requires@).len() > 0,
            args.argv@.len() > 0,
        decreases args.env@.len() - i,
    {
        assert(all.skip(i as int)[0] == args.env@[i as int]@);
        assert(all.skip(i as int).skip(1) =~= all.skip(i + 1));
        if !has_char(args.env[i].as_str(), '=') {
            let mut m = "--env entry ".to_owned();
            m.append(quote(args.env[i].as_str()).as_str());
            m.append(" must be of the form KEY=VAL");
            return Err(CliErr::Usage(m));
        }
        i = i + 1;
    }
    assert(all.skip(i as int).len() == 0);
    match &args.stdin {
        Some(s) => {
            if !text_eq(s.as_str(), "-") && !stdin_exists {
                let mut m = "--stdin file ".to_owned();
                m.append(quote(s.as_str()).as_str());
                m.append(" does not exist (use \"-\" to inherit stdin)");
                return Err(CliErr::Usage(m));
            }
        },
        None => {},
    }
    Ok(())
}

} // verus!
