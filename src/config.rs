//! Where settings and snapshots live, relative to the user's configuration
//! folder.
use vstd::prelude::*;

use vstd::string::*;

use crate::content::opt_view;
use crate::search::views;
use crate::text::{
    cat, chars_of, occurs_at, occurs_at_exec, split_at_char, split_on, str_equal, trim_bounds,
    trimmed,
};

verus! {

/// The folder, inside the user's configuration folder, that holds the
/// settings and the snapshots.
pub const APP_DIR: &'static str = "secmanager";

/// The settings file inside `APP_DIR`.
pub const SETTINGS_FILE: &'static str = "settings.json";

/// Names of the files that persist settings and snapshots.
pub struct Config;

impl Config {
    /// The file, inside `APP_DIR`, that holds the snapshot of identifiers
    /// listed for `profile`.
    pub fn secrets_cache_path(profile: &str) -> (r: String)
        ensures
            r@ == "secrets_"@ + profile@ + ".json"@,
    {
        let head = cat("secrets_", profile);
        cat(head.as_str(), ".json")
    }

    /// The file, inside `APP_DIR`, that holds the metadata snapshot for
    /// `profile`.
    pub fn metadata_cache_path(profile: &str) -> (r: String)
        ensures
            r@ == "secrets_meta_"@ + profile@ + ".json"@,
    {
        let head = cat("secrets_meta_", profile);
        cat(head.as_str(), ".json")
    }
}

/// The profile a line of an AWS config file (`config`) or credentials file
/// declares: the trimmed text between the brackets of a trimmed `[...]`
/// line, less a leading `profile ` in a config file.
pub open spec fn header_of(line: Seq<char>, config: bool) -> Option<Seq<char>> {
    let t = trimmed(line);
    if t.len() >= 2 && t[0] == '[' && t.last() == ']' {
        let inner = t.subrange(1, t.len() - 1);
        let name = if config && "profile "@.is_prefix_of(inner) {
            inner.skip("profile "@.len() as int)
        } else {
            inner
        };
        Some(trimmed(name))
    } else {
        None
    }
}

/// `acc` with `n` added at the end, unless it is empty or already there.
pub open spec fn add_name(acc: Seq<Seq<char>>, n: Seq<char>) -> Seq<Seq<char>> {
    if n.len() > 0 && !acc.contains(n) {
        acc.push(n)
    } else {
        acc
    }
}

/// `acc` with the profiles that `lines` declare added, in order.
pub open spec fn gather(acc: Seq<Seq<char>>, lines: Seq<Seq<char>>, config: bool) -> Seq<Seq<char>>
    decreases lines.len(),
{
    if lines.len() == 0 {
        acc
    } else {
        let before = gather(acc, lines.drop_last(), config);
        match header_of(lines.last(), config) {
            Some(n) => add_name(before, n),
            None => before,
        }
    }
}

/// The profiles that a config file and a credentials file declare, first
/// seen first, each once; `default` alone where they declare none.
pub open spec fn profiles_in(config: Seq<char>, credentials: Seq<char>) -> Seq<Seq<char>> {
    let found = gather(
        gather(Seq::empty(), split_on(config, '\n'), true),
        split_on(credentials, '\n'),
        false,
    );
    if found.len() == 0 {
        seq!["default"@]
    } else {
        found
    }
}

/// The profile that `line` declares, if it is a section header.
pub fn header_name(line: &str, config: bool) -> (r: Option<String>)
    ensures
        opt_view(r) == header_of(line@, config),
{
    let cs = chars_of(line);
    let (a, b) = trim_bounds(&cs, 0, cs.len());
    assert(cs@.subrange(0, cs@.len() as int) =~= line@);
    let ghost t = cs@.subrange(a as int, b as int);
    if b - a < 2 || cs[a] != '[' || cs[b - 1] != ']' {
        assert(t.len() >= 2 ==> t[0] == cs@[a as int] && t.last() == cs@[b - 1]);
        return None;
    }
    let ghost inner = t.subrange(1, t.len() - 1);
    assert(inner =~= cs@.subrange(a + 1, b - 1));
    let mut from = a + 1;
    let to = b - 1;
    let ghost name = inner;
    if config {
        let p = chars_of("profile ");
        let fits = p.len() <= to - from;
        if fits && occurs_at_exec(&cs, &p, from) {
            assert("profile "@.is_prefix_of(inner)) by {
                assert forall|j: int| 0 <= j < p@.len() implies "profile "@[j] == inner[j] by {
                    assert(cs@.subrange(from as int, from + p@.len())[j] == cs@[from + j]);
                }
            }
            from = from + p.len();
            proof {
                name = inner.skip("profile "@.len() as int);
            }
            assert(name =~= cs@.subrange(from as int, to as int));
        } else {
            assert(!"profile "@.is_prefix_of(inner)) by {
                if "profile "@.is_prefix_of(inner) {
                    assert(cs@.subrange(from as int, from + p@.len()) =~= p@);
                    assert(occurs_at(cs@, p@, from as int));
                }
            }
        }
    }
    assert(name == cs@.subrange(from as int, to as int));
    let (c, d) = trim_bounds(&cs, from, to);
    let r = line.substring_char(c, d).to_owned();
    Some(r)
}

/// Whether `n` is among `names`.
fn has_name(names: &Vec<String>, n: &String) -> (r: bool)
    ensures
        r == views(names@).contains(n@),
{
    let mut i: usize = 0;
    while i < names.len()
        invariant
            i <= names@.len(),
            forall|j: int| 0 <= j < i ==> names@[j]@ != n@,
        decreases names.len() - i,
    {
        if str_equal(names[i].as_str(), n.as_str()) {
            assert(views(names@)[i as int] == n@);
            return true;
        }
        i += 1;
    }
    false
}

/// Adds the profiles that the lines of `text` declare to `names`.
fn gather_names(names: &mut Vec<String>, text: &str, config: bool)
    ensures
        views(final(names)@) == gather(views(old(names)@), split_on(text@, '\n'), config),
{
    let lines = split_at_char(text, '\n');
    let ghost acc0 = views(names@);
    let ghost ls = views(lines@);
    let mut i: usize = 0;
    assert(ls.take(0) =~= Seq::<Seq<char>>::empty());
    while i < lines.len()
        invariant
            i <= lines@.len(),
            ls == views(lines@),
            views(names@) == gather(acc0, ls.take(i as int), config),
        decreases lines.len() - i,
    {
        assert(ls.take(i + 1).drop_last() =~= ls.take(i as int));
        assert(ls.take(i + 1).last() == lines@[i as int]@);
        if let Some(n) = header_name(lines[i].as_str(), config) {
            if n.as_str().unicode_len() > 0 && !has_name(names, &n) {
                let ghost before = views(names@);
                names.push(n);
                assert(views(names@) =~= before.push(n@));
            }
        }
        i += 1;
    }
    assert(ls.take(lines@.len() as int) =~= ls);
}

/// The profiles that an AWS config file and credentials file declare,
/// first seen first and each once, or `default` alone where they declare
/// none.
pub fn profile_names(config: &str, credentials: &str) -> (r: Vec<String>)
    ensures
        views(r@) == profiles_in(config@, credentials@),
{
    let mut names: Vec<String> = Vec::new();
    assert(views(names@) =~= Seq::<Seq<char>>::empty());
    gather_names(&mut names, config, true);
    gather_names(&mut names, credentials, false);
    if names.len() == 0 {
        names.push(String::from_str("default"));
        assert(views(names@) =~= seq!["default"@]);
    }
    names
}

} // verus!
