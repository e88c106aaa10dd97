//! Path analysis over `/`-separated path text: normal components, file name,
//! extension, and the trailing directory names above a file.
use vstd::prelude::*;

use crate::text::{owned, text_eq};

verus! {

/// The pieces of `s` between `/` separators, empty pieces included.
pub open spec fn split_on_slash(s: Seq<char>) -> Seq<Seq<char>>
    decreases s.len(),
{
    if s.len() == 0 {
        seq![Seq::<char>::empty()]
    } else {
        let init = split_on_slash(s.drop_last());
        if s.last() == '/' {
            init.push(Seq::<char>::empty())
        } else {
            init.update(init.len() - 1, init.last().push(s.last()))
        }
    }
}

/// A piece that names a component: not empty and not the current directory.
pub open spec fn is_part(seg: Seq<char>) -> bool {
    seg.len() > 0 && seg != "."@
}

/// A normal component: a part that is not the parent directory.
pub open spec fn is_normal(seg: Seq<char>) -> bool {
    is_part(seg) && seg != ".."@
}

/// The normal pieces of `segs`, in order.
pub open spec fn keep_normal(segs: Seq<Seq<char>>) -> Seq<Seq<char>>
    decreases segs.len(),
{
    if segs.len() == 0 {
        segs
    } else {
        let r = keep_normal(segs.drop_last());
        if is_normal(segs.last()) {
            r.push(segs.last())
        } else {
            r
        }
    }
}

/// The last piece of `segs` that is a part, if any.
pub open spec fn last_part(segs: Seq<Seq<char>>) -> Option<Seq<char>>
    decreases segs.len(),
{
    if segs.len() == 0 {
        None
    } else if is_part(segs.last()) {
        Some(segs.last())
    } else {
        last_part(segs.drop_last())
    }
}

/// The normal components of a path: its names, without root, `.` or `..`.
pub open spec fn normal_components(path: Seq<char>) -> Seq<Seq<char>> {
    keep_normal(split_on_slash(path))
}

/// The file name of a path: its last component, unless that is `..` or there
/// is none.
pub open spec fn file_name_of(path: Seq<char>) -> Option<Seq<char>> {
    match last_part(split_on_slash(path)) {
        Some(f) => if f == ".."@ {
            None
        } else {
            Some(f)
        },
        None => None,
    }
}

/// The index of the last `.` in `f`, or -1.
pub open spec fn last_dot(f: Seq<char>) -> int
    decreases f.len(),
{
    if f.len() == 0 {
        -1
    } else if f.last() == '.' {
        f.len() - 1
    } else {
        last_dot(f.drop_last())
    }
}

/// The extension of a path: what follows the last `.` of its file name,
/// where that `.` is not the name's first character.
pub open spec fn extension_of(path: Seq<char>) -> Option<Seq<char>> {
    match file_name_of(path) {
        Some(f) => if last_dot(f) > 0 {
            Some(f.subrange(last_dot(f) + 1, f.len() as int))
        } else {
            None
        },
        None => None,
    }
}

/// All directory names of a path, in order: its normal components, without
/// the last one where the path names a file.
pub open spec fn dir_names(path: Seq<char>, is_file: bool) -> Seq<Seq<char>> {
    let n = normal_components(path);
    if is_file && n.len() > 0 {
        n.drop_last()
    } else {
        n
    }
}

/// The directory names above a path's file, in order from parent to child:
/// the last `levels` of them, or all where there are fewer.
pub open spec fn upper_folders(path: Seq<char>, is_file: bool, levels: nat) -> Seq<Seq<char>> {
    let d = dir_names(path, is_file);
    if d.len() >= levels {
        d.subrange(d.len() - levels, d.len() as int)
    } else {
        d
    }
}

/// The names kept above a file are the last ones of its directory names, at
/// most `levels` of them, and fewer only where the path has fewer.
pub proof fn lemma_upper_folders_shape(path: Seq<char>, is_file: bool, levels: nat)
    ensures
        upper_folders(path, is_file, levels).len() <= levels,
        upper_folders(path, is_file, levels).len() < levels ==> upper_folders(
            path,
            is_file,
            levels,
        ) == dir_names(path, is_file),
        upper_folders(path, is_file, levels) == dir_names(path, is_file).subrange(
            dir_names(path, is_file).len() - upper_folders(path, is_file, levels).len(),
            dir_names(path, is_file).len() as int,
        ),
{
    let d = dir_names(path, is_file);
    if d.len() < levels {
        assert(d.subrange(0, d.len() as int) =~= d);
    }
}

/// The character views of a sequence of strings.
pub open spec fn texts(v: Seq<String>) -> Seq<Seq<char>> {
    v.map_values(|x: String| x@)
}

proof fn lemma_split_step(s: Seq<char>, i: int)
    requires
        0 <= i < s.len(),
    ensures
        split_on_slash(s.take(i + 1)) == if s[i] == '/' {
            split_on_slash(s.take(i)).push(Seq::<char>::empty())
        } else {
            split_on_slash(s.take(i)).update(
                split_on_slash(s.take(i)).len() - 1,
                split_on_slash(s.take(i)).last().push(s[i]),
            )
        },
{
    assert(s.take(i + 1).drop_last() =~= s.take(i));
}

proof fn lemma_split_nonempty(s: Seq<char>)
    ensures
        split_on_slash(s).len() >= 1,
    decreases s.len(),
{
    if s.len() > 0 {
        lemma_split_nonempty(s.drop_last());
    }
}

proof fn lemma_push_last(segs: Seq<Seq<char>>, x: Seq<char>)
    ensures
        keep_normal(segs.push(x)) == if is_normal(x) {
            keep_normal(segs).push(x)
        } else {
            keep_normal(segs)
        },
        last_part(segs.push(x)) == if is_part(x) {
            Some(x)
        } else {
            last_part(segs)
        },
{
    assert(segs.push(x).drop_last() =~= segs);
}

/// Records one piece of a path: a normal one joins `comps`, a part becomes
/// the last part seen.
fn take_segment(seg: &str, comps: &mut Vec<String>, last: &mut Option<String>)
    ensures
        texts(final(comps)@) == if is_normal(seg@) {
            texts(old(comps)@).push(seg@)
        } else {
            texts(old(comps)@)
        },
        is_part(seg@) ==> *final(last) is Some && (*final(last))->0@ == seg@,
        !is_part(seg@) ==> *final(last) == *old(last),
{
    proof {
        reveal_strlit(".");
        reveal_strlit("..");
        assert("."@ =~= seq!['.']);
        assert(".."@ =~= seq!['.', '.']);
    }
    let len = seg.unicode_len();
    if len > 0 && !text_eq(seg, ".") {
        if !text_eq(seg, "..") {
            let ghost before = comps@;
            comps.push(owned(seg));
            proof {
                assert(texts(comps@) =~= texts(before).push(seg@));
            }
        }
        *last = Some(owned(seg));
    }
}

/// Splits a path into its normal components and its file name.
pub fn split_path(path: &str) -> (r: (Vec<String>, Option<String>))
    ensures
        texts(r.0@) == normal_components(path@),
        r.1 is Some <==> file_name_of(path@) is Some,
        r.1 is Some ==> r.1->0@ == file_name_of(path@)->0,
{
    let n = path.unicode_len();
    let mut comps: Vec<String> = Vec::new();
    let mut last: Option<String> = None;
    let ghost mut done: Seq<Seq<char>> = Seq::empty();
    let mut start: usize = 0;
    let mut i: usize = 0;
    proof {
        assert(path@.take(0) =~= Seq::<char>::empty());
    }
    while i < n
        invariant
            n == path@.len(),
            start <= i <= n,
            split_on_slash(path@.take(i as int)) == done.push(
                path@.subrange(start as int, i as int),
            ),
            texts(comps@) == keep_normal(done),
            last is Some <==> last_part(done) is Some,
            last is Some ==> last->0@ == last_part(done)->0,
        decreases n - i,
    {
        if path.get_char(i) == '/' {
            let seg = path.substring_char(start, i);
            proof {
                lemma_push_last(done, seg@);
            }
            take_segment(seg, &mut comps, &mut last);
            proof {
                lemma_split_step(path@, i as int);
                assert(path@.subrange(i + 1, i + 1) =~= Seq::<char>::empty());
                done = done.push(seg@);
            }
            start = i + 1;
        } else {
            proof {
                lemma_split_step(path@, i as int);
                assert(path@.subrange(start as int, i + 1) =~= path@.subrange(
                    start as int,
                    i as int,
                ).push(path@[i as int]));
                assert(done.push(path@.subrange(start as int, i as int)).update(
                    done.len() as int,
                    path@.subrange(start as int, i + 1),
                ) =~= done.push(path@.subrange(start as int, i + 1)));
            }
        }
        i = i + 1;
    }
    let seg = path.substring_char(start, n);
    proof {
        lemma_push_last(done, seg@);
        assert(path@.take(n as int) =~= path@);
        done = done.push(seg@);
    }
    take_segment(seg, &mut comps, &mut last);
    let name = match last {
        Some(f) => if text_eq(f.as_str(), "..") {
            None
        } else {
            Some(f)
        },
        None => None,
    };
    (comps, name)
}

/// The file name of a path as text, empty where the path has none.
pub open spec fn file_name_text(path: Seq<char>) -> Seq<char> {
    match file_name_of(path) {
        Some(f) => f,
        None => Seq::<char>::empty(),
    }
}

/// Extracts the last `levels` directory names above a path's file, in order
/// from parent to child (all of them where there are fewer), together with
/// the file name (empty where the path has none). `is_file` tells whether the
/// path denotes an existing file, whose own name is then not counted.
pub fn extract_path_components(path: &str, is_file: bool, levels: usize) -> (r: (
    Vec<String>,
    String,
))
    ensures
        texts(r.0@) == upper_folders(path@, is_file, levels as nat),
        r.1@ == file_name_text(path@),
{
    let (comps, name) = split_path(path);
    let total = comps.len();
    let dir_count: usize = if is_file {
        if total > 0 {
            total - 1
        } else {
            0
        }
    } else {
        total
    };
    let lo: usize = if dir_count >= levels {
        dir_count - levels
    } else {
        0
    };
    let ghost all = normal_components(path@);
    assert(texts(comps@).len() == comps@.len());
    let mut out: Vec<String> = Vec::new();
    let mut j: usize = lo;
    while j < dir_count
        invariant
            lo <= j <= dir_count <= comps@.len(),
            texts(comps@) == all,
            texts(out@) =~= all.subrange(lo as int, j as int),
        decreases dir_count - j,
    {
        let ghost before = out@;
        out.push(comps[j].clone());
        proof {
            assert(texts(comps@)[j as int] == comps@[j as int]@);
            assert(texts(out@) =~= texts(before).push(comps@[j as int]@));
            assert(all.subrange(lo as int, j + 1) =~= all.subrange(lo as int, j as int).push(
                all[j as int],
            ));
        }
        j = j + 1;
    }
    proof {
        let d = dir_names(path@, is_file);
        assert(d =~= all.subrange(0, dir_count as int));
        if dir_count >= levels {
            assert(upper_folders(path@, is_file, levels as nat) =~= all.subrange(
                lo as int,
                dir_count as int,
            ));
        } else {
            assert(upper_folders(path@, is_file, levels as nat) =~= all.subrange(
                lo as int,
                dir_count as int,
            ));
        }
    }
    let filename = match name {
        Some(f) => f,
        None => String::new(),
    };
    (out, filename)
}

/// The extension of a path: what follows the last `.` of its file name, where
/// that `.` is not the name's first character; `None` otherwise.
pub fn path_extension(path: &str) -> (r: Option<String>)
    ensures
        r is Some <==> extension_of(path@) is Some,
        r is Some ==> r->0@ == extension_of(path@)->0,
{
    let (_comps, name) = split_path(path);
    match name {
        None => None,
        Some(f) => {
            let s = f.as_str();
            let n = s.unicode_len();
            let mut k: usize = n;
            assert(s@.take(n as int) =~= s@);
            while k > 0
                invariant
                    k <= n == s@.len(),
                    last_dot(s@) == last_dot(s@.take(k as int)),
                ensures
                    k <= n,
                    last_dot(s@) == last_dot(s@.take(k as int)),
                    k > 0 ==> s@[k - 1] == '.',
                decreases k,
            {
                if s.get_char(k - 1) == '.' {
                    break;
                }
                proof {
                    assert(s@.take(k as int).drop_last() =~= s@.take(k - 1));
                }
                k = k - 1;
            }
            proof {
                if k > 0 {
                    assert(s@.take(k as int).last() == '.');
                } else {
                    assert(s@.take(0) =~= Seq::<char>::empty());
                }
            }
            if k > 1 {
                Some(owned(s.substring_char(k, n)))
            } else {
                None
            }
        },
    }
}

} // verus!
