//! Path handling: home-relative expansion, path joining, and the
//! resolution of the persisted cookie-directory preference.
use vstd::prelude::*;
use crate::text::append_chars;
use crate::text::spec_trim;
use crate::text::str_to_chars;
use crate::text::string_from_chars;
use crate::text::trim_chars;

verus! {

/// The fixed default cookie directory, before home expansion.
pub open spec fn default_directory_raw() -> Seq<char> {
    "~/.var/app/org.vinegarhq.Sober/data/sober/"@
}

pub fn default_directory_input() -> (r: &'static str)
    ensures
        r@ == default_directory_raw(),
{
    "~/.var/app/org.vinegarhq.Sober/data/sober/"
}

/// `file` appended below `dir`, with exactly one separator between them.
pub open spec fn spec_join_path(dir: Seq<char>, file: Seq<char>) -> Seq<char> {
    if dir.len() == 0 {
        file
    } else if dir.last() == '/' {
        dir + file
    } else {
        dir + seq!['/'] + file
    }
}

pub fn join_path_chars(dir: &Vec<char>, file: &Vec<char>) -> (r: Vec<char>)
    ensures
        r@ == spec_join_path(dir@, file@),
{
    if dir.len() == 0 {
        let mut r: Vec<char> = Vec::new();
        append_chars(&mut r, file);
        proof {
            assert(r@ =~= file@);
        }
        return r;
    }
    let mut r: Vec<char> = Vec::new();
    append_chars(&mut r, dir);
    if dir[dir.len() - 1] != '/' {
        r.push('/');
        proof {
            assert(r@ =~= dir@ + seq!['/']);
        }
    }
    append_chars(&mut r, file);
    proof {
        assert(dir@.last() == dir@[dir@.len() - 1]);
        if dir@.last() == '/' {
            assert(r@ =~= dir@ + file@);
        }
    }
    r
}

/// Join a directory and a filename, as path strings.
pub fn join_path(dir: &str, file: &str) -> (r: String)
    ensures
        r@ == spec_join_path(dir@, file@),
{
    let d = str_to_chars(dir);
    let f = str_to_chars(file);
    let joined = join_path_chars(&d, &f);
    string_from_chars(&joined)
}

/// Does the path begin with the home-directory marker `~/`?
pub open spec fn starts_with_tilde(p: Seq<char>) -> bool {
    p.len() >= 2 && p[0] == '~' && p[1] == '/'
}

/// Home expansion: a path beginning with `~/` has the marker replaced by
/// the home directory when one is known; any other path, or any path when
/// no home directory is known, is returned unchanged.
pub open spec fn spec_expand(p: Seq<char>, home: Option<Seq<char>>) -> Seq<char> {
    if starts_with_tilde(p) && home is Some {
        spec_join_path(home->0, p.skip(2))
    } else {
        p
    }
}

/// The view of an optional path string.
pub open spec fn opt_str_view(o: Option<String>) -> Option<Seq<char>> {
    match o {
        Option::Some(s) => Option::Some(s@),
        Option::None => Option::None,
    }
}

/// Expand a home-relative path against an explicitly given home directory.
pub fn expand_path_with(path: &str, home: &Option<String>) -> (r: String)
    ensures
        r@ == spec_expand(path@, opt_str_view(*home)),
{
    let p = str_to_chars(path);
    if p.len() >= 2 && p[0] == '~' && p[1] == '/' {
        match home {
            Option::Some(h) => {
                let hc = str_to_chars(h.as_str());
                let mut rest: Vec<char> = Vec::new();
                let mut i: usize = 2;
                while i < p.len()
                    invariant
                        2 <= i <= p@.len(),
                        rest@ == p@.subrange(2, i as int),
                    decreases p@.len() - i,
                {
                    let c = p[i];
                    rest.push(c);
                    proof {
                        assert(rest@ =~= p@.subrange(2, i as int + 1));
                    }
                    i += 1;
                }
                proof {
                    assert(rest@ =~= p@.skip(2));
                }
                let joined = join_path_chars(&hc, &rest);
                string_from_chars(&joined)
            },
            Option::None => {
                string_from_chars(&p)
            },
        }
    } else {
        string_from_chars(&p)
    }
}

/// Relies on dirs::home_dir: the user's home directory, if the host
/// reports one. The result depends on the process environment, so nothing
/// further is promised of it.
#[verifier::external_body]
fn home_dir_string() -> (r: Option<String>) {
    dirs::home_dir().map(|p| p.to_string_lossy().to_string())
}

/// Relies on dirs::config_dir: the host's per-user configuration root, if
/// it reports one. The result depends on the process environment, so
/// nothing further is promised of it.
#[verifier::external_body]
fn config_dir_string() -> (r: Option<String>) {
    dirs::config_dir().map(|p| p.to_string_lossy().to_string())
}

/// Expand a home-relative path against the host's home directory. The
/// home directory comes from the environment, so the contract promises
/// only that the result is the expansion against some such answer; a path
/// without the `~/` marker is returned unchanged.
pub fn expand_path(path: &str) -> (r: String)
    ensures
        exists|home: Option<Seq<char>>| r@ == spec_expand(path@, home),
        !starts_with_tilde(path@) ==> r@ == path@,
{
    let home = home_dir_string();
    let r = expand_path_with(path, &home);
    proof {
        assert(r@ == spec_expand(path@, opt_str_view(home)));
    }
    r
}

/// The directory below the configuration root that holds this
/// application's persisted preference.
pub open spec fn config_subdir_name() -> Seq<char> {
    "sober-cookie-manager"@
}

/// The filename of the persisted directory preference.
pub open spec fn config_file_name() -> Seq<char> {
    "directory.txt"@
}

/// Where the preference file lives below a given configuration root.
pub open spec fn spec_config_file_path(base: Seq<char>) -> Seq<char> {
    spec_join_path(spec_join_path(base, config_subdir_name()), config_file_name())
}

/// The preference file's path below an explicitly given configuration
/// root.
pub fn config_file_path_with(base: &str) -> (r: String)
    ensures
        r@ == spec_config_file_path(base@),
{
    let sub = join_path(base, "sober-cookie-manager");
    join_path(sub.as_str(), "directory.txt")
}

/// The preference file's path below the host's configuration root, or
/// below the given fallback directory when the host reports none. The
/// root comes from the environment, so the contract promises only the
/// shape of the result.
pub fn locate_config_file(fallback: &str) -> (r: String)
    ensures
        exists|base: Seq<char>| r@ == spec_config_file_path(base),
{
    let base = config_dir_string();
    match base {
        Option::Some(b) => {
            let r = config_file_path_with(b.as_str());
            proof {
                assert(r@ == spec_config_file_path(b@));
            }
            r
        },
        Option::None => {
            let r = config_file_path_with(fallback);
            proof {
                assert(r@ == spec_config_file_path(fallback@));
            }
            r
        },
    }
}

/// The directory the persisted preference proposes: the file's trimmed
/// content, home-expanded — or nothing when the file was absent or its
/// trimmed content empty.
pub open spec fn spec_candidate(
    content: Option<Seq<char>>,
    home: Option<Seq<char>>,
) -> Option<Seq<char>> {
    match content {
        Option::Some(c) => {
            if spec_trim(c).len() == 0 {
                Option::None
            } else {
                Option::Some(spec_expand(spec_trim(c), home))
            }
        },
        Option::None => Option::None,
    }
}

/// Derive the proposed directory from the preference file's content.
pub fn preference_candidate(content: &Option<String>, home: &Option<String>) -> (r: Option<
    String,
>)
    ensures
        opt_str_view(r) == spec_candidate(opt_str_view(*content), opt_str_view(*home)),
{
    match content {
        Option::Some(c) => {
            let chars = str_to_chars(c.as_str());
            let trimmed = trim_chars(&chars);
            if trimmed.len() == 0 {
                Option::None
            } else {
                let t = string_from_chars(&trimmed);
                Option::Some(expand_path_with(t.as_str(), home))
            }
        },
        Option::None => Option::None,
    }
}

/// The directory the application works in: the proposed directory when
/// one exists on disk, and the home-expanded default otherwise.
pub open spec fn spec_resolve_directory(
    candidate: Option<Seq<char>>,
    candidate_exists: bool,
    home: Option<Seq<char>>,
) -> Seq<char> {
    match candidate {
        Option::Some(c) => {
            if candidate_exists {
                c
            } else {
                spec_expand(default_directory_raw(), home)
            }
        },
        Option::None => spec_expand(default_directory_raw(), home),
    }
}

/// Fall back to the default directory unless the persisted candidate
/// names a path that exists; `candidate_exists` reports that check, which
/// the caller makes on the host filesystem.
pub fn resolve_directory(
    candidate: &Option<String>,
    candidate_exists: bool,
    home: &Option<String>,
) -> (r: String)
    ensures
        r@ == spec_resolve_directory(opt_str_view(*candidate), candidate_exists, opt_str_view(
            *home,
        )),
{
    match candidate {
        Option::Some(c) => {
            if candidate_exists {
                let chars = str_to_chars(c.as_str());
                string_from_chars(&chars)
            } else {
                expand_path_with(default_directory_input(), home)
            }
        },
        Option::None => expand_path_with(default_directory_input(), home),
    }
}

} // verus!
