//! The operator command line: commands, `--flag value` pairs, and the
//! values a command takes from its flags or the environment.

use crate::text::{chars_of, equals_str, push_str, string_from, string_of, trim, trim_chars, utf8_len, utf8_length};
use vstd::prelude::*;

verus! {

pub open spec fn string_pairs(v: Seq<(String, String)>) -> Seq<(Seq<char>, Seq<char>)> {
    v.map_values(|p: (String, String)| (p.0@, p.1@))
}

/// The flags of `--flag value` pairs, in order: each key once, holding the
/// value it was given last.
pub open spec fn flag_map(args: Seq<Seq<char>>) -> Map<Seq<char>, Seq<char>>
    decreases args.len(),
{
    if args.len() < 2 {
        Map::empty()
    } else {
        flag_map(args.subrange(0, args.len() - 2)).insert(args[args.len() - 2], args.last())
    }
}

pub open spec fn arg_views(args: Seq<String>) -> Seq<Seq<char>> {
    args.map_values(|s: String| s@)
}

pub open spec fn pairs_map(ps: Seq<(Seq<char>, Seq<char>)>) -> Map<Seq<char>, Seq<char>>
    decreases ps.len(),
{
    if ps.len() == 0 {
        Map::empty()
    } else {
        pairs_map(ps.drop_last()).insert(ps.last().0, ps.last().1)
    }
}

pub open spec fn keys_unique(ps: Seq<(Seq<char>, Seq<char>)>) -> bool {
    forall|i: int, j: int| 0 <= i < j < ps.len() ==> (#[trigger] ps[i]).0 != (#[trigger] ps[j]).0
}

fn find_key(flags: &Vec<(String, String)>, key: &String) -> (r: Option<usize>)
    ensures
        r matches Some(i) ==> i < flags@.len() && string_pairs(flags@)[i as int].0 == key@,
        r is None ==> forall|i: int|
            0 <= i < flags@.len() ==> (#[trigger] string_pairs(flags@)[i]).0 != key@,
{
    let n = flags.len();
    for i in 0..n
        invariant
            n == flags@.len(),
            forall|k: int| 0 <= k < i ==> (#[trigger] string_pairs(flags@)[k]).0 != key@,
    {
        if flags[i].0 == *key {
            return Some(i);
        }
    }
    None
}

/// Reads `--flag value` pairs. An odd argument count fails with the flag
/// that has no value.
pub fn parse_flags(args: &[String]) -> (r: Result<Vec<(String, String)>, String>)
    ensures
        args@.len() % 2 == 0 <==> r is Ok,
        r matches Ok(flags) ==> keys_unique(string_pairs(flags@)) && pairs_map(
            string_pairs(flags@),
        ) == flag_map(arg_views(args@)),
        r matches Err(m) ==> m@ == "missing value for "@ + args@.last()@,
{
    let mut flags: Vec<(String, String)> = Vec::new();
    let n = args.len();
    let mut i: usize = 0;
    while i < n
        invariant
            n == args@.len(),
            i <= n,
            i % 2 == 0,
            keys_unique(string_pairs(flags@)),
            pairs_map(string_pairs(flags@)) == flag_map(arg_views(args@.take(i as int))),
        decreases n - i,
    {
        if i + 1 >= n {
            let mut m = string_from("missing value for ");
            push_str(&mut m, args[i].as_str());
            assert(n % 2 == 1);
            return Err(m);
        }
        let key = args[i].clone();
        let value = args[i + 1].clone();
        let ghost before = string_pairs(flags@);
        assert(arg_views(args@.take(i + 2)).subrange(0, i as int) =~= arg_views(args@.take(i as int)));
        match find_key(&flags, &key) {
            Some(k) => {
                flags.set(k, (key, value));
                assert(string_pairs(flags@) =~= before.update(k as int, (args@[i as int]@, args@[i + 1]@)));
                proof {
                    lemma_update_existing(before, k as int, args@[i + 1]@);
                }
            },
            None => {
                flags.push((key, value));
                assert(string_pairs(flags@) =~= before.push((args@[i as int]@, args@[i + 1]@)));
                assert(string_pairs(flags@).drop_last() =~= before);
            },
        }
        i = i + 2;
    }
    assert(args@.take(n as int) =~= args@);
    Ok(flags)
}

proof fn lemma_update_existing(ps: Seq<(Seq<char>, Seq<char>)>, k: int, v: Seq<char>)
    requires
        0 <= k < ps.len(),
        keys_unique(ps),
    ensures
        pairs_map(ps.update(k, (ps[k].0, v))) == pairs_map(ps).insert(ps[k].0, v),
        keys_unique(ps.update(k, (ps[k].0, v))),
    decreases ps.len(),
{
    let qs = ps.update(k, (ps[k].0, v));
    if k == ps.len() - 1 {
        assert(qs.drop_last() =~= ps.drop_last());
        assert(pairs_map(qs) =~= pairs_map(ps).insert(ps[k].0, v));
    } else {
        assert(qs.drop_last() =~= ps.drop_last().update(k, (ps[k].0, v)));
        lemma_update_existing(ps.drop_last(), k, v);
        assert(ps.last().0 != ps[k].0);
        assert(pairs_map(qs) =~= pairs_map(ps).insert(ps[k].0, v));
    }
}

/// The usage text printed for an unknown command or a missing value.
pub const USAGE: &'static str = "usage: foundry-controller instance add \\\n         --name <display name> \\\n         --base-url https://gitlab.example.com \\\n         --registry-url https://registry.example.com\n       (client id read from FOUNDRY_INSTANCE_CLIENT_ID or --client-id;\n        client secret read from FOUNDRY_INSTANCE_CLIENT_SECRET)\n\n       foundry-controller admin add --username <name> [--name <display>]\n       foundry-controller admin set-password --username <name>\n       (password read from FOUNDRY_ADMIN_PASSWORD; generated and\n        printed when unset)";

pub enum CliCommand {
    InstanceAdd,
    AdminAdd,
    AdminSetPassword,
    Unknown,
}

/// The first two arguments are these words.
pub open spec fn names(first: Option<&str>, second: Option<&str>, a: Seq<char>, b: Seq<char>) -> bool {
    match (first, second) {
        (Some(f), Some(s)) => f@ == a && s@ == b,
        _ => false,
    }
}

/// The command named by the first two arguments.
pub fn command_of(first: Option<&str>, second: Option<&str>) -> (r: CliCommand)
    ensures
        r is InstanceAdd <==> names(first, second, "instance"@, "add"@),
        r is AdminAdd <==> names(first, second, "admin"@, "add"@),
        r is AdminSetPassword <==> names(first, second, "admin"@, "set-password"@),
{
    proof {
        reveal_strlit("instance");
        reveal_strlit("admin");
        reveal_strlit("add");
        reveal_strlit("set-password");
    }
    assert("instance"@ != "admin"@) by {
        assert("instance"@.len() != "admin"@.len());
    }
    assert("add"@ != "set-password"@) by {
        assert("add"@.len() != "set-password"@.len());
    }
    let (f, s) = match (first, second) {
        (Some(f), Some(s)) => (f, s),
        _ => return CliCommand::Unknown,
    };
    let fv = chars_of(f);
    let sv = chars_of(s);
    if equals_str(fv.as_slice(), "instance") && equals_str(sv.as_slice(), "add") {
        CliCommand::InstanceAdd
    } else if equals_str(fv.as_slice(), "admin") && equals_str(sv.as_slice(), "add") {
        CliCommand::AdminAdd
    } else if equals_str(fv.as_slice(), "admin") && equals_str(sv.as_slice(), "set-password") {
        CliCommand::AdminSetPassword
    } else {
        CliCommand::Unknown
    }
}

/// The value of a flag, if it was given.
pub open spec fn flag_value(flags: Seq<(String, String)>, key: Seq<char>) -> Option<Seq<char>>
    decreases flags.len(),
{
    if flags.len() == 0 {
        None
    } else if flags[0].0@ == key {
        Some(flags[0].1@)
    } else {
        flag_value(flags.drop_first(), key)
    }
}

pub fn lookup_flag(flags: &Vec<(String, String)>, key: &str) -> (r: Option<String>)
    ensures
        match r {
            Some(v) => flag_value(flags@, key@) == Some(v@),
            None => flag_value(flags@, key@) is None,
        },
{
    let n = flags.len();
    let mut i: usize = 0;
    assert(flags@.skip(0) =~= flags@);
    while i < n
        invariant
            i <= n == flags@.len(),
            flag_value(flags@, key@) == flag_value(flags@.skip(i as int), key@),
        decreases n - i,
    {
        assert(flags@.skip(i as int).drop_first() =~= flags@.skip(i + 1));
        assert(flags@.skip(i as int)[0] == flags@[i as int]);
        if equals_str(chars_of(flags[i].0.as_str()).as_slice(), key) {
            return Some(string_from(flags[i].1.as_str()));
        }
        i = i + 1;
    }
    None
}

/// A value from its flag, else from its environment variable, else an
/// error naming both, followed by the usage.
pub fn flag_or_env(flags: &Vec<(String, String)>, key: &str, env_value: Option<&str>, env_name: &str) -> (r:
    Result<String, String>)
    ensures
        match flag_value(flags@, key@) {
            Some(v) => r matches Ok(s) && s@ == v,
            None => match env_value {
                Some(e) => r matches Ok(s) && s@ == e@,
                None => r matches Err(m) && m@ == "missing "@ + key@ + " (or "@ + env_name@ + ")\n"@ + USAGE@,
            },
        },
{
    match lookup_flag(flags, key) {
        Some(v) => Ok(v),
        None => match env_value {
            Some(e) => Ok(string_from(e)),
            None => {
                let mut m = string_from("missing ");
                push_str(&mut m, key);
                push_str(&mut m, " (or ");
                push_str(&mut m, env_name);
                push_str(&mut m, ")\n");
                push_str(&mut m, USAGE);
                Err(m)
            },
        },
    }
}

/// The `--username` of an admin command, trimmed. A new admin's name must
/// be 1 to 64 bytes long (`checked`).
pub fn admin_username(flags: &Vec<(String, String)>, checked: bool) -> (r: Result<String, String>)
    ensures
        match flag_value(flags@, "--username"@) {
            None => r matches Err(m) && m@ == "missing --username\n"@ + USAGE@,
            Some(u) => if checked && !(1 <= utf8_len(trim(u)) <= 64) {
                r matches Err(m) && m@ == "username must be 1-64 characters"@
            } else {
                r matches Ok(s) && s@ == trim(u)
            },
        },
{
    let u = match lookup_flag(flags, "--username") {
        Some(u) => u,
        None => {
            let mut m = string_from("missing --username\n");
            push_str(&mut m, USAGE);
            return Err(m);
        },
    };
    let t = trim_chars(chars_of(u.as_str()).as_slice());
    if checked {
        let len = utf8_length(t.as_slice());
        if len == 0 || len > 64 {
            return Err(string_from("username must be 1-64 characters"));
        }
    }
    Ok(string_of(t.as_slice()))
}

/// The password an admin command sets: `FOUNDRY_ADMIN_PASSWORD` unless it
/// is blank; none means one is generated (and printed).
pub fn chosen_password(env_value: Option<&str>) -> (r: Option<String>)
    ensures
        match env_value {
            Some(p) => if trim(p@).len() > 0 {
                r matches Some(s) && s@ == p@
            } else {
                r is None
            },
            None => r is None,
        },
{
    match env_value {
        Some(p) => {
            if trim_chars(chars_of(p).as_slice()).len() > 0 {
                Some(string_from(p))
            } else {
                None
            }
        },
        None => None,
    }
}

} // verus!
