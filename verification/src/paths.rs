//! Unix paths as text: joining them and the name that a path ends in.

use vstd::prelude::*;
use vstd::string::StringExecFns;
use crate::text;

verus! {

/// The path of `name` under `base`; `name` is relative and not empty.
pub open spec fn under(base: Seq<char>, name: Seq<char>) -> Seq<char> {
    if base.len() == 0 || base.last() == '/' {
        base + name
    } else {
        base + "/"@ + name
    }
}

/// The path of `name` under `base`, where `name` is relative.
pub fn join(base: &str, name: &str) -> (r: String)
    requires
        name@.len() > 0,
        name@[0] != '/',
    ensures
        r@ == under(base@, name@),
{
    let mut out = base.to_owned();
    let chars = text::chars_of(base);
    if chars.len() > 0 && chars[chars.len() - 1] != '/' {
        out.append("/");
    }
    out.append(name);
    out
}

/// The position of the last `c` in `s`, or -1 where it does not occur.
pub open spec fn last_of(s: Seq<char>, c: char) -> int
    decreases s.len(),
{
    if s.len() == 0 {
        -1
    } else if s.last() == c {
        s.len() - 1
    } else {
        last_of(s.drop_last(), c)
    }
}

/// The name of the file or directory that a path leads to. Empty parts and `.` do not count;
/// a path that has no other part, or that ends in `..`, has no name.
pub open spec fn base_name(s: Seq<char>) -> Option<Seq<char>>
    decreases s.len(),
{
    if s.len() == 0 {
        None
    } else {
        let cut = last_of(s, '/');
        let part = s.skip(cut + 1);
        if part == ""@ || part == "."@ {
            if 0 <= cut < s.len() {
                base_name(s.take(cut))
            } else {
                None
            }
        } else if part == ".."@ {
            None
        } else {
            Some(part)
        }
    }
}

proof fn lemma_last_of(s: Seq<char>, c: char)
    ensures
        -1 <= last_of(s, c) < s.len(),
        last_of(s, c) >= 0 ==> s[last_of(s, c)] == c,
    decreases s.len(),
{
    if s.len() > 0 && s.last() != c {
        lemma_last_of(s.drop_last(), c);
    }
}

/// The name that a path ends in.
pub fn file_name(path: &str) -> (r: Option<String>)
    ensures
        match r {
            Some(name) => base_name(path@) == Some(name@),
            None => base_name(path@) is None,
        },
{
    let x = text::chars_of(path);
    let mut end: usize = x.len();
    assert(path@.take(end as int) =~= path@);
    proof {
        reveal_strlit("");
        reveal_strlit(".");
        reveal_strlit("..");
    }
    while end > 0
        invariant
            end <= x.len(),
            x@ == path@,
            base_name(path@) == base_name(path@.take(end as int)),
        decreases end,
    {
        let ghost now = path@.take(end as int);
        let mut start: usize = end;
        assert(now.take(start as int) =~= now);
        while start > 0 && x[start - 1] != '/'
            invariant
                start <= end <= x.len(),
                x@ == path@,
                now == path@.take(end as int),
                last_of(now, '/') == last_of(now.take(start as int), '/'),
            decreases start,
        {
            assert(now.take(start as int).drop_last() =~= now.take(start - 1));
            start -= 1;
        }
        assert(last_of(now, '/') == start - 1) by {
            if start > 0 {
                assert(now.take(start as int).last() == '/');
            }
        }
        let part = text::string_of(&x, start, end);
        assert(part@ =~= now.skip(start as int));
        if text::same(part.as_str(), "") || text::same(part.as_str(), ".") {
            if start == 0 {
                return None;
            }
            assert(now.take(start - 1) =~= path@.take(start - 1));
            end = start - 1;
        } else if text::same(part.as_str(), "..") {
            return None;
        } else {
            return Some(part);
        }
    }
    None
}

proof fn lemma_last_after(s: Seq<char>, c: char, k: int)
    requires
        last_of(s, c) < k < s.len(),
    ensures
        s[k] != c,
    decreases s.len(),
{
    lemma_last_of(s, c);
    if s.len() > 0 && s.last() != c && k < s.len() - 1 {
        lemma_last_after(s.drop_last(), c, k);
    }
}

/// A name has no separator, is not empty, and is neither `.` nor `..`.
pub proof fn names_are_plain(path: Seq<char>)
    ensures
        match base_name(path) {
            Some(name) => {
                &&& name.len() > 0
                &&& name != "."@
                &&& name != ".."@
                &&& forall|i: int| 0 <= i < name.len() ==> name[i] != '/'
            },
            None => true,
        },
    decreases path.len(),
{
    reveal_strlit("");
    if path.len() > 0 {
        let cut = last_of(path, '/');
        lemma_last_of(path, '/');
        let part = path.skip(cut + 1);
        if part == ""@ || part == "."@ {
            if cut >= 0 {
                names_are_plain(path.take(cut));
            }
        } else {
            assert(part.len() > 0) by {
                if part.len() == 0 {
                    assert(part =~= ""@);
                }
            }
            assert forall|i: int| 0 <= i < part.len() implies part[i] != '/' by {
                lemma_last_after(path, '/', cut + 1 + i);
            }
        }
    }
}

/// The name of a path that was joined with a plain name is that name.
pub proof fn joined_paths_end_in_the_name(base: Seq<char>, name: Seq<char>)
    requires
        name.len() > 0,
        name != "."@,
        name != ".."@,
        forall|i: int| 0 <= i < name.len() ==> name[i] != '/',
    ensures
        base_name(under(base, name)) == Some(name),
{
    reveal_strlit("");
    reveal_strlit("/");
    let path = under(base, name);
    let cut = path.len() - name.len() - 1;
    assert forall|k: int| cut < k < path.len() implies path[k] != '/' by {
        assert(path[k] == name[k - cut - 1]);
    }
    assert(cut >= 0 ==> path[cut] == '/');
    lemma_last_of_is(path, '/', cut);
    assert(path.skip(cut + 1) =~= name);
}

proof fn lemma_last_of_is(s: Seq<char>, c: char, k: int)
    requires
        -1 <= k < s.len(),
        k >= 0 ==> s[k] == c,
        forall|i: int| k < i < s.len() ==> s[i] != c,
    ensures
        last_of(s, c) == k,
    decreases s.len(),
{
    if k < s.len() - 1 {
        lemma_last_of_is(s.drop_last(), c, k);
    }
}

/// Joining puts one separator between the two, and none where the base is empty or ends in one.
pub proof fn joining_puts_one_separator(base: Seq<char>, name: Seq<char>)
    ensures
        under(Seq::<char>::empty(), name) == name,
        under(base.push('/'), name) == base.push('/') + name,
        base.len() > 0 && base.last() != '/' ==> under(base, name) == base.push('/') + name,
{
    reveal_strlit("/");
    assert(Seq::<char>::empty() + name =~= name);
    assert(base + "/"@ + name =~= base.push('/') + name);
}

/// A plain name is its own name, also behind any directories; separators and `.` at the end do
/// not count; `..` leaves no name, and neither does nothing.
pub proof fn names_end_paths(dirs: Seq<char>, name: Seq<char>)
    requires
        name.len() > 0,
        name != "."@,
        name != ".."@,
        forall|i: int| 0 <= i < name.len() ==> name[i] != '/',
    ensures
        base_name(Seq::<char>::empty()) is None,
        base_name(name) == Some(name),
        base_name(dirs.push('/') + name) == Some(name),
        base_name(dirs.push('/')) == base_name(dirs),
        base_name(dirs.push('/').push('.')) == base_name(dirs),
        base_name(dirs.push('/').push('.').push('.')) is None,
        base_name(seq!['.']) is None,
        base_name(seq!['.', '.']) is None,
{
    reveal_strlit("");
    reveal_strlit(".");
    reveal_strlit("..");
    joined_paths_end_in_the_name(Seq::empty(), name);
    assert(under(Seq::<char>::empty(), name) =~= name);
    joined_paths_end_in_the_name(dirs.push('/'), name);
    let n = dirs.len() as int;
    let p1 = dirs.push('/');
    lemma_last_of_is(p1, '/', n);
    assert(p1.skip(n + 1) =~= ""@);
    assert(p1.take(n) =~= dirs);
    let p2 = p1.push('.');
    lemma_last_of_is(p2, '/', n);
    assert(p2.skip(n + 1) =~= "."@);
    assert(p2.take(n) =~= dirs);
    let p3 = p2.push('.');
    lemma_last_of_is(p3, '/', n);
    assert(p3.skip(n + 1) =~= ".."@);
    assert(""@.len() == 0 && "."@.len() == 1 && ".."@.len() == 2);
    let d1 = seq!['.'];
    lemma_last_of_is(d1, '/', -1);
    assert(d1.skip(0) =~= "."@);
    let d2 = seq!['.', '.'];
    lemma_last_of_is(d2, '/', -1);
    assert(d2.skip(0) =~= ".."@);
}

} // verus!
