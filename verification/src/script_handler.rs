//! Expansion of configured handler command templates: percent tokens in
//! an argument stand for the current file's path and its components, and
//! are substituted before the command runs. Path components are taken at
//! the last slash and the last dot of the final component.

use vstd::prelude::*;
use crate::strutil::{string_push, string_push_str};
use crate::utils::{extension_of, last_index_of, lemma_last_index_of, rfind_char};

verus! {

/// The path without its final component: empty when there is no
/// separator, the root when the only separator leads it.
pub open spec fn parent_of(p: Seq<char>) -> Seq<char> {
    let i = last_index_of(p, '/');
    if i < 0 {
        Seq::empty()
    } else if i == 0 {
        seq!['/']
    } else {
        p.subrange(0, i)
    }
}

/// The final component of the path.
pub open spec fn file_name_of(p: Seq<char>) -> Seq<char> {
    p.subrange(last_index_of(p, '/') + 1, p.len() as int)
}

/// The final component without its extension.
pub open spec fn file_stem_of(p: Seq<char>) -> Seq<char> {
    let name = file_name_of(p);
    let dot = last_index_of(name, '.');
    if dot <= 0 {
        name
    } else {
        name.subrange(0, dot)
    }
}

/// The extension, or nothing where there is none.
pub open spec fn extension_or_empty(p: Seq<char>) -> Seq<char> {
    match extension_of(p) {
        Some(e) => e,
        None => Seq::empty(),
    }
}

/// One command argument with its percent tokens substituted: `%f` the
/// whole path, `%d` its parent, `%n` the file stem, `%e` the extension,
/// `%F` the file name, `%%` a literal percent; any other percent is kept
/// as it stands.
pub open spec fn expanded(arg: Seq<char>, path: Seq<char>) -> Seq<char>
    decreases arg.len(),
{
    if arg.len() == 0 {
        Seq::empty()
    } else if arg[0] == '%' {
        if arg.len() == 1 {
            seq!['%']
        } else {
            let c = arg[1];
            if c == 'f' {
                path + expanded(arg.skip(2), path)
            } else if c == 'd' {
                parent_of(path) + expanded(arg.skip(2), path)
            } else if c == 'n' {
                file_stem_of(path) + expanded(arg.skip(2), path)
            } else if c == 'e' {
                extension_or_empty(path) + expanded(arg.skip(2), path)
            } else if c == 'F' {
                file_name_of(path) + expanded(arg.skip(2), path)
            } else if c == '%' {
                seq!['%'] + expanded(arg.skip(2), path)
            } else {
                seq!['%'] + expanded(arg.skip(1), path)
            }
        }
    } else {
        seq![arg[0]] + expanded(arg.skip(1), path)
    }
}

/// The path without its final component.
pub fn parent_component(path: &str) -> (r: String)
    ensures
        r@ == parent_of(path@),
{
    match rfind_char(path, '/') {
        None => String::new(),
        Some(i) => {
            if i == 0 {
                let r = path.substring_char(0, 1);
                proof {
                    lemma_last_index_of(path@, '/');
                    assert(r@ =~= seq!['/']);
                }
                r.to_owned()
            } else {
                path.substring_char(0, i).to_owned()
            }
        },
    }
}

/// The final component of the path.
pub fn file_name_component(path: &str) -> (r: String)
    ensures
        r@ == file_name_of(path@),
{
    let n: usize = path.unicode_len();
    let start: usize = match rfind_char(path, '/') {
        Some(i) => i + 1,
        None => 0,
    };
    path.substring_char(start, n).to_owned()
}

/// The final component without its extension.
pub fn file_stem_component(path: &str) -> (r: String)
    ensures
        r@ == file_stem_of(path@),
{
    let n: usize = path.unicode_len();
    let start: usize = match rfind_char(path, '/') {
        Some(i) => i + 1,
        None => 0,
    };
    let name: &str = path.substring_char(start, n);
    proof {
        assert(name@ =~= file_name_of(path@));
    }
    let name_len: usize = name.unicode_len();
    match rfind_char(name, '.') {
        Some(d) if d > 0 => name.substring_char(0, d).to_owned(),
        _ => name.to_owned(),
    }
}

/// The extension, or empty where there is none.
pub fn extension_component(path: &str) -> (r: String)
    ensures
        r@ == extension_or_empty(path@),
{
    let n: usize = path.unicode_len();
    let start: usize = match rfind_char(path, '/') {
        Some(i) => i + 1,
        None => 0,
    };
    let name: &str = path.substring_char(start, n);
    proof {
        assert(name@ =~= file_name_of(path@));
        assert(name@ =~= path@.subrange(last_index_of(path@, '/') + 1, path@.len() as int));
    }
    let name_len: usize = name.unicode_len();
    match rfind_char(name, '.') {
        Some(d) if d > 0 => name.substring_char(d + 1, name_len).to_owned(),
        _ => String::new(),
    }
}

/// Substitute the percent tokens of one configured command argument
/// against the current file's path.
pub fn format_command_arg(arg: &str, path_str: &str) -> (r: String)
    ensures
        r@ == expanded(arg@, path_str@),
{
    let n: usize = arg.unicode_len();
    let mut out = String::new();
    let mut i: usize = 0;
    proof {
        assert(arg@.skip(0) =~= arg@);
        assert(out@ + expanded(arg@, path_str@) =~= expanded(arg@, path_str@));
    }
    while i < n
        invariant
            n == arg@.len(),
            i <= n,
            expanded(arg@, path_str@) == out@ + expanded(arg@.skip(i as int), path_str@),
        decreases n - i,
    {
        let ghost rest = arg@.skip(i as int);
        let c = arg.get_char(i);
        proof {
            assert(rest[0] == arg@[i as int]);
            assert(rest.skip(1) =~= arg@.skip(i as int + 1));
            if i + 2 <= n {
                assert(rest.skip(2) =~= arg@.skip(i as int + 2));
                assert(rest[1] == arg@[i as int + 1]);
            }
        }
        if c == '%' {
            if i + 1 == n {
                string_push(&mut out, '%');
                proof {
                    assert(out@ + expanded(arg@.skip(n as int), path_str@) =~= out@);
                    assert(expanded(arg@, path_str@) =~= out@);
                }
                i = i + 1;
            } else {
                let next = arg.get_char(i + 1);
                if next == 'f' {
                    string_push_str(&mut out, path_str);
                    i = i + 2;
                } else if next == 'd' {
                    let part = parent_component(path_str);
                    string_push_str(&mut out, part.as_str());
                    i = i + 2;
                } else if next == 'n' {
                    let part = file_stem_component(path_str);
                    string_push_str(&mut out, part.as_str());
                    i = i + 2;
                } else if next == 'e' {
                    let part = extension_component(path_str);
                    string_push_str(&mut out, part.as_str());
                    i = i + 2;
                } else if next == 'F' {
                    let part = file_name_component(path_str);
                    string_push_str(&mut out, part.as_str());
                    i = i + 2;
                } else if next == '%' {
                    string_push(&mut out, '%');
                    i = i + 2;
                } else {
                    string_push(&mut out, '%');
                    i = i + 1;
                }
                proof {
                    assert(expanded(arg@, path_str@) =~= out@ + expanded(
                        arg@.skip(i as int),
                        path_str@,
                    ));
                }
            }
        } else {
            string_push(&mut out, c);
            proof {
                assert(expanded(arg@, path_str@) =~= out@ + expanded(
                    arg@.skip(i as int + 1),
                    path_str@,
                ));
            }
            i = i + 1;
        }
    }
    proof {
        assert(arg@.skip(n as int).len() == 0);
        assert(expanded(arg@, path_str@) =~= out@);
    }
    out
}

} // verus!
