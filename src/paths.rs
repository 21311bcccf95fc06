use vstd::prelude::*;

verus! {

pub open spec fn opt_view(o: Option<String>) -> Option<Seq<char>> {
    match o {
        Some(s) => Some(s@),
        None => None,
    }
}

/// A path that starts at the root directory.
pub open spec fn is_absolute(p: Seq<char>) -> bool {
    p.len() > 0 && p[0] == '/'
}

/// A path whose first component is `~`.
pub open spec fn is_home_relative(p: Seq<char>) -> bool {
    p == seq!['~'] || (p.len() >= 2 && p[0] == '~' && p[1] == '/')
}

/// A relative path appended to a directory, with one separator between.
pub open spec fn join_path(dir: Seq<char>, rel: Seq<char>) -> Seq<char> {
    if dir.len() == 0 || dir.last() == '/' {
        dir + rel
    } else {
        dir + seq!['/'] + rel
    }
}

/// Tilde expansion: a leading `~` that stands alone or before `/` becomes
/// the home directory, when one is known; anything else is left as it is.
pub open spec fn expand_tilde(p: Seq<char>, home: Option<Seq<char>>) -> Seq<char> {
    if p.len() > 0 && p[0] == '~' && (p.len() == 1 || p[1] == '/') && home is Some {
        home->0 + p.drop_first()
    } else {
        p
    }
}

/// Where a path argument leads: absolute and `~` paths are taken as they are
/// (after tilde expansion), other paths are relative to `cwd`.
pub open spec fn resolve_path(arg: Seq<char>, cwd: Seq<char>, home: Option<Seq<char>>) -> Seq<
    char,
> {
    if is_absolute(arg) || is_home_relative(arg) {
        expand_tilde(arg, home)
    } else {
        join_path(cwd, arg)
    }
}

/// Relies on `shellexpand::tilde_with_context`, given the home directory as
/// its context: a leading `~` alone or before `/` is replaced by the home
/// directory when there is one, and any other input comes back unchanged.
#[verifier::external_body]
fn tilde(path: &str, home: Option<String>) -> (r: String)
    ensures
        r@ == expand_tilde(path@, opt_view(home)),
{
    shellexpand::tilde_with_context(path, move || home).into_owned()
}

/// Relies on `home::home_dir`: the user's home directory, if the environment
/// gives one. It depends on the environment, so nothing is stated of it.
#[verifier::external_body]
pub(crate) fn home_directory() -> (r: Option<String>) {
    match home::home_dir() {
        Some(p) => Some(p.to_string_lossy().into_owned()),
        None => None,
    }
}

/// Resolves a path argument against the current directory.
pub fn resolve(arg: &String, cwd: &String, home: Option<String>) -> (r: String)
    ensures
        r@ == resolve_path(arg@, cwd@, opt_view(home)),
{
    let a = arg.as_str();
    let n = a.unicode_len();
    let absolute = n > 0 && a.get_char(0) == '/';
    let home_relative = (n == 1 && a.get_char(0) == '~') || (n >= 2 && a.get_char(0) == '~'
        && a.get_char(1) == '/');
    assert(home_relative == is_home_relative(arg@)) by {
        if n == 1 && arg@[0] == '~' {
            assert(arg@ =~= seq!['~']);
        }
    }
    if absolute || home_relative {
        tilde(a, home)
    } else {
        let c = cwd.as_str();
        let m = c.unicode_len();
        if m == 0 || c.get_char(m - 1) == '/' {
            cwd.clone().concat(a)
        } else {
            let sep = String::from_str("/");
            proof {
                reveal_strlit("/");
            }
            let r = cwd.clone().concat(sep.as_str()).concat(a);
            assert(r@ =~= join_path(cwd@, arg@));
            r
        }
    }
}

} // verus!
