//! Paths as text, with `/` between the names.

use vstd::prelude::*;
use crate::template_discovery::{extension_of, file_name_of};
use crate::text::{chars_of, last_index_of, last_position, slice_of, string_of};

verus! {

/// The path of `relative` under `base`. A path that starts at the root
/// stays as it is, and so does any path under the empty base.
pub open spec fn join(base: Seq<char>, relative: Seq<char>) -> Seq<char> {
    if relative.len() > 0 && relative[0] == '/' {
        relative
    } else if base.len() == 0 {
        relative
    } else if base.last() == '/' {
        base + relative
    } else {
        base + seq!['/'] + relative
    }
}

/// The directory that holds `path`: what stands before the last `/`, the
/// root for a name directly under it, the empty path for a bare name.
/// The root and the empty path have none.
pub open spec fn parent_of(path: Seq<char>) -> Option<Seq<char>> {
    match last_position(path, '/') {
        None => if path.len() == 0 {
            None
        } else {
            Some(Seq::empty())
        },
        Some(i) => if i == 0 {
            if path.len() == 1 {
                None
            } else {
                Some(seq!['/'])
            }
        } else {
            Some(path.take(i))
        },
    }
}

/// The path with the extension of its file name replaced by `tmp`, or
/// with `.tmp` added where the name has no extension.
pub open spec fn temporary_of(path: Seq<char>) -> Seq<char> {
    let name = file_name_of(path);
    match extension_of(name) {
        Some(extension) => path.take(path.len() - extension.len()) + "tmp"@,
        None => path + ".tmp"@,
    }
}

/// The path of `relative` under `base`.
pub fn join_paths(base: &str, relative: &str) -> (r: String)
    ensures
        r@ == join(base@, relative@),
{
    let b = chars_of(base);
    let rel = chars_of(relative);
    if rel.len() > 0 && rel[0] == '/' {
        return string_of(&rel);
    }
    if b.len() == 0 {
        return string_of(&rel);
    }
    let mut out: Vec<char> = b;
    if out[out.len() - 1] != '/' {
        out.push('/');
    }
    let mut i: usize = 0;
    let ghost start = out@;
    while i < rel.len()
        invariant
            i <= rel.len(),
            out@ == start + rel@.take(i as int),
        decreases rel.len() - i,
    {
        out.push(rel[i]);
        proof {
            assert(rel@.take(i as int).push(rel@[i as int]) =~= rel@.take(i + 1));
        }
        i += 1;
    }
    proof {
        assert(rel@.take(rel@.len() as int) =~= rel@);
    }
    string_of(&out)
}

/// The directory that holds `path`.
pub fn parent_path(path: &str) -> (r: Option<String>)
    ensures
        match r {
            Some(p) => parent_of(path@) == Some(p@),
            None => parent_of(path@) is None,
        },
{
    let chars = chars_of(path);
    match last_index_of(&chars, '/') {
        None => {
            if chars.len() == 0 {
                None
            } else {
                Some(String::new())
            }
        },
        Some(i) => {
            if i == 0 {
                if chars.len() == 1 {
                    None
                } else {
                    let root: Vec<char> = vec!['/'];
                    Some(string_of(&root))
                }
            } else {
                let p = slice_of(&chars, 0, i);
                assert(p@ =~= chars@.take(i as int));
                Some(string_of(&p))
            }
        },
    }
}

/// The path of the temporary file beside `path`.
pub fn temporary_path(path: &str) -> (r: String)
    ensures
        r@ == temporary_of(path@),
{
    let chars = chars_of(path);
    let start: usize = match last_index_of(&chars, '/') {
        Some(i) => i + 1,
        None => 0,
    };
    let name = slice_of(&chars, start, chars.len());
    assert(name@ =~= file_name_of(path@));
    let dot: Option<usize> = if name.len() == 2 && name[0] == '.' && name[1] == '.' {
        proof {
            reveal_strlit("..");
            assert(name@ =~= ".."@);
        }
        None
    } else {
        proof {
            reveal_strlit("..");
            if name@ == ".."@ {
                assert(name@.len() == 2);
                assert(name@[0] == '.' && name@[1] == '.');
            }
        }
        match last_index_of(&name, '.') {
            Some(i) => if i == 0 {
                None
            } else {
                Some(i)
            },
            None => None,
        }
    };
    let mut out: Vec<char> = match dot {
        Some(i) => {
            // keep the name up to and with its last dot
            let kept = slice_of(&chars, 0, start + i + 1);
            proof {
                let extension = name@.skip(i + 1);
                assert(extension_of(name@) == Some(extension));
                assert(kept@ =~= path@.take(path@.len() - extension.len()));
            }
            kept
        },
        None => {
            let mut all = slice_of(&chars, 0, chars.len());
            assert(all@ =~= path@);
            all.push('.');
            all
        },
    };
    out.push('t');
    out.push('m');
    out.push('p');
    proof {
        reveal_strlit("tmp");
        reveal_strlit(".tmp");
        match dot {
            Some(i) => {
                let extension = name@.skip(i + 1);
                assert(out@ =~= path@.take(path@.len() - extension.len()) + "tmp"@);
            },
            None => {
                assert(out@ =~= path@ + ".tmp"@);
            },
        }
    }
    string_of(&out)
}

} // verus!
