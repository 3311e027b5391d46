//! The rules of `run`: finding a script in the manifest and the command
//! line it runs.
use vstd::prelude::*;
use crate::error::{CNodeError, ErrorKind};
use crate::text::{concat, owned, str_eq};

verus! {

/// The first entry of the scripts named `name`, if any.
pub open spec fn first_named(scripts: Seq<(String, Option<String>)>, name: Seq<char>) -> Option<int>
    decreases scripts.len(),
{
    if scripts.len() == 0 {
        None
    } else {
        match first_named(scripts.drop_last(), name) {
            Some(i) => Some(i),
            None => if scripts.last().0@ == name {
                Some(scripts.len() - 1)
            } else {
                None
            },
        }
    }
}

/// What `run` finds for a script: its text, or an error when the manifest
/// has no scripts or no script of that name given as text.
pub open spec fn find_script_spec(scripts: Option<Seq<(String, Option<String>)>>, name: Seq<char>) -> Result<Seq<char>, (ErrorKind, Seq<char>)> {
    match scripts {
        None => Err((ErrorKind::Custom, "No scripts in package.json"@)),
        Some(s) => match first_named(s, name) {
            Some(i) => match s[i].1 {
                Some(t) => Ok(t@),
                None => Err((ErrorKind::Custom, "Script '"@ + name + "' not found"@)),
            },
            None => Err((ErrorKind::Custom, "Script '"@ + name + "' not found"@)),
        },
    }
}

proof fn lemma_first_named_extends(s: Seq<(String, Option<String>)>, n: int, name: Seq<char>)
    requires
        0 <= n <= s.len(),
        first_named(s.take(n), name) is Some,
    ensures
        first_named(s, name) == first_named(s.take(n), name),
    decreases s.len() - n,
{
    if n < s.len() {
        assert(s.take(n + 1).drop_last() =~= s.take(n));
        lemma_first_named_extends(s, n + 1, name);
    } else {
        assert(s.take(n) =~= s);
    }
}

/// The text of the script `name` in the manifest's scripts.
pub fn find_script(scripts: Option<&Vec<(String, Option<String>)>>, name: &str) -> (r: Result<String, CNodeError>)
    ensures
        crate::error::string_result_view(r) == find_script_spec(
            match scripts {
                Some(s) => Some(s@),
                None => None,
            },
            name@,
        ),
{
    let s = match scripts {
        Some(s) => s,
        None => {
            return Err(CNodeError::Custom(owned("No scripts in package.json")));
        },
    };
    let mut i: usize = 0;
    while i < s.len()
        invariant
            i <= s@.len(),
            scripts == Some(s),
            first_named(s@.take(i as int), name@) is None,
        decreases s@.len() - i,
    {
        proof {
            assert(s@.take(i + 1).drop_last() =~= s@.take(i as int));
            assert(s@.take(i + 1).last() == s@[i as int]);
        }
        if str_eq(s[i].0.as_str(), name) {
            proof {
                assert(first_named(s@.take(i + 1), name@) == Some(i as int));
                lemma_first_named_extends(s@, i as int + 1, name@);
            }
            match &s[i].1 {
                Some(t) => {
                    return Ok(t.clone());
                },
                None => {
                    let mut m = concat("Script '", name);
                    m.append("' not found");
                    return Err(CNodeError::Custom(m));
                },
            }
        }
        i = i + 1;
    }
    assert(s@.take(s@.len() as int) =~= s@);
    let mut m = concat("Script '", name);
    m.append("' not found");
    Err(CNodeError::Custom(m))
}

/// The arguments joined with single spaces.
pub open spec fn joined_args(args: Seq<String>) -> Seq<char>
    decreases args.len(),
{
    if args.len() == 0 {
        Seq::empty()
    } else if args.len() == 1 {
        args[0]@
    } else {
        joined_args(args.drop_last()) + " "@ + args.last()@
    }
}

/// The command line a script runs with: the script, then the extra
/// arguments separated by spaces.
pub open spec fn script_command_spec(script: Seq<char>, args: Seq<String>) -> Seq<char> {
    if args.len() == 0 {
        script
    } else {
        script + " "@ + joined_args(args)
    }
}

/// The command line of a script is built argument by argument: with no
/// extra argument it is the script itself, and each extra argument adds a
/// space and that argument at the end. So with arguments `a1 .. an` it is
/// `script a1 .. an`, every argument kept, in order.
pub proof fn lemma_script_command_appends_arguments(script: Seq<char>, args: Seq<String>)
    ensures
        args.len() == 0 ==> script_command_spec(script, args) == script,
        args.len() > 0 ==> script_command_spec(script, args) == script_command_spec(script, args.drop_last()) + " "@
            + args.last()@,
        args.len() == 1 ==> script_command_spec(script, args) == script + " "@ + args[0]@,
{
    if args.len() == 1 {
        assert(args.drop_last().len() == 0);
        assert(args.last() == args[0]);
    } else if args.len() > 1 {
        assert(script + " "@ + (joined_args(args.drop_last()) + " "@ + args.last()@) =~= (script + " "@ + joined_args(
            args.drop_last(),
        )) + " "@ + args.last()@);
    }
}

/// The command line a script runs with.
pub fn script_command(script: &str, args: &Vec<String>) -> (c: String)
    ensures
        c@ == script_command_spec(script@, args@),
{
    if args.len() == 0 {
        return owned(script);
    }
    let mut joined = args[0].clone();
    let mut i: usize = 1;
    assert(args@.take(1).drop_last().len() == 0);
    assert(joined_args(args@.take(1)) == args@[0]@);
    while i < args.len()
        invariant
            1 <= i <= args@.len(),
            joined@ == joined_args(args@.take(i as int)),
        decreases args@.len() - i,
    {
        joined.append(" ");
        joined.append(args[i].as_str());
        proof {
            assert(args@.take(i + 1).drop_last() =~= args@.take(i as int));
            assert(args@.take(i + 1).last() == args@[i as int]);
        }
        i = i + 1;
    }
    assert(args@.take(args@.len() as int) =~= args@);
    let mut c = concat(script, " ");
    c.append(joined.as_str());
    c
}

} // verus!
