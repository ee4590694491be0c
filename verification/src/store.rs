//! Which files of the configuration directories stand for servers, clients
//! and configured interfaces, and under which names.
use crate::text::{chars_of, string_of};
use vstd::prelude::*;

verus! {

/// A file of a configuration directory that the listings read.
#[derive(Debug, PartialEq, Eq)]
pub enum ConfFile {
    /// `<name>.toml`: a stored server (or, in a server's directory, client).
    Toml(String),
    /// `<name>.conf`: an AmneziaWG interface configuration.
    Conf(String),
}

/// The position of the last `.` in `s`.
pub open spec fn last_dot(s: Seq<char>) -> Option<int>
    decreases s.len(),
{
    if s.len() == 0 {
        None
    } else if s.last() == '.' {
        Some(s.len() - 1)
    } else {
        last_dot(s.drop_last())
    }
}

/// A file name split as `Path::file_stem` and `Path::extension` split it:
/// at the last `.`, unless there is none or it is the first character, in
/// which case the whole name is the stem and there is no extension.
pub open spec fn split_extension(name: Seq<char>) -> (Seq<char>, Option<Seq<char>>) {
    match last_dot(name) {
        Some(k) if k > 0 => (name.take(k), Some(name.skip(k + 1))),
        _ => (name, None),
    }
}

/// What a file of this name is: `.toml` and `.conf` files, by stem; any
/// other file is none of them.
pub open spec fn conf_file_spec(name: Seq<char>) -> Option<(bool, Seq<char>)> {
    let (stem, ext) = split_extension(name);
    match ext {
        Some(e) => if e == seq!['t', 'o', 'm', 'l'] {
            Some((true, stem))
        } else if e == seq!['c', 'o', 'n', 'f'] {
            Some((false, stem))
        } else {
            None
        },
        None => None,
    }
}

proof fn lemma_last_dot(s: Seq<char>)
    ensures
        match last_dot(s) {
            Some(k) => 0 <= k < s.len() && s[k] == '.' && forall|j: int|
                k < j < s.len() ==> s[j] != '.',
            None => forall|j: int| 0 <= j < s.len() ==> s[j] != '.',
        },
    decreases s.len(),
{
    if s.len() > 0 && s.last() != '.' {
        let t = s.drop_last();
        lemma_last_dot(t);
        assert forall|j: int| 0 <= j < t.len() implies t[j] == s[j] by {}
    }
}

proof fn lemma_last_dot_at(s: Seq<char>, k: int)
    requires
        0 <= k < s.len(),
        s[k] == '.',
        forall|j: int| k < j < s.len() ==> s[j] != '.',
    ensures
        last_dot(s) == Some(k),
    decreases s.len(),
{
    if k < s.len() - 1 {
        lemma_last_dot_at(s.drop_last(), k);
    }
}

proof fn lemma_no_dot(s: Seq<char>)
    requires
        forall|j: int| 0 <= j < s.len() ==> s[j] != '.',
    ensures
        last_dot(s) is None,
    decreases s.len(),
{
    if s.len() > 0 {
        lemma_no_dot(s.drop_last());
    }
}

fn ends_with(v: &Vec<char>, from: usize, ext: &Vec<char>) -> (r: bool)
    requires
        from <= v@.len(),
    ensures
        r == (v@.skip(from as int) == ext@),
{
    if v.len() - from != ext.len() {
        assert(v@.skip(from as int).len() != ext@.len());
        return false;
    }
    let mut i: usize = 0;
    while i < ext.len()
        invariant
            from <= v@.len(),
            v@.len() == v.len(),
            v@.len() - from == ext@.len(),
            i <= ext@.len(),
            forall|j: int| 0 <= j < i ==> v@[from + j] == ext@[j],
        decreases ext@.len() - i,
    {
        if v[from + i] != ext[i] {
            assert(v@.skip(from as int)[i as int] != ext@[i as int]);
            return false;
        }
        i = i + 1;
    }
    assert(v@.skip(from as int) =~= ext@);
    true
}

/// What the file `name` of a configuration directory stands for: a
/// `<stem>.toml` file a stored server or client, a `<stem>.conf` file a
/// configured interface; `None` for any other file.
pub fn conf_file(name: &str) -> (r: Option<ConfFile>)
    ensures
        match conf_file_spec(name@) {
            Some((true, stem)) => r matches Some(ConfFile::Toml(s)) && s@ == stem,
            Some((false, stem)) => r matches Some(ConfFile::Conf(s)) && s@ == stem,
            None => r is None,
        },
{
    let v = chars_of(name);
    let mut k: usize = v.len();
    while k > 0 && v[k - 1] != '.'
        invariant
            k <= v@.len(),
            v@ == name@,
            forall|j: int| k <= j < v@.len() ==> v@[j] != '.',
        decreases k,
    {
        k = k - 1;
    }
    if k <= 1 {
        proof {
            if k == 0 {
                lemma_no_dot(v@);
            } else {
                lemma_last_dot_at(v@, 0);
            }
        }
        return None;
    }
    let dot = k - 1;
    proof {
        lemma_last_dot_at(v@, dot as int);
    }
    let toml = vec!['t', 'o', 'm', 'l'];
    let conf = vec!['c', 'o', 'n', 'f'];
    let is_toml = ends_with(&v, k, &toml);
    let is_conf = ends_with(&v, k, &conf);
    if !is_toml && !is_conf {
        return None;
    }
    let mut stem: Vec<char> = Vec::new();
    let mut i: usize = 0;
    while i < dot
        invariant
            dot < v@.len(),
            i <= dot,
            stem@ == v@.take(i as int),
        decreases dot - i,
    {
        stem.push(v[i]);
        i = i + 1;
        assert(stem@ =~= v@.take(i as int));
    }
    let s = string_of(stem.as_slice());
    if is_toml {
        Some(ConfFile::Toml(s))
    } else {
        Some(ConfFile::Conf(s))
    }
}

} // verus!
