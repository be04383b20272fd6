//! Where paths lead: components, double dots, and places on disk.

use vstd::prelude::*;

use crate::text::{base_name, file_name, last_start, path_under};

verus! {

/// How far a component leads down: one directory for a name, none for an empty component or a
/// dot, and up again for a double dot.
pub open spec fn descent(part: Seq<char>) -> int {
    if part.len() == 0 || part == seq!['.'] {
        0
    } else if part == seq!['.', '.'] {
        -1
    } else {
        1
    }
}

/// How far a path leads down in all: its names, less its double dots.
pub open spec fn level(path: Seq<char>) -> int
    decreases path.len(),
{
    let k = last_start(path);
    descent(path.skip(k)) + if 0 < k <= path.len() {
        level(path.take(k - 1))
    } else {
        0
    }
}

/// Whether a relative path leads out of the directory that it starts in: taken component by
/// component, some beginning of it has more double dots than names.
pub open spec fn leaves(path: Seq<char>) -> bool
    decreases path.len(),
{
    let k = last_start(path);
    level(path) < 0 || (0 < k <= path.len() && leaves(path.take(k - 1)))
}

/// The place, as names from the root down, that a path leads to from another one. Above the root
/// is the root.
pub open spec fn walk(from: Seq<Seq<char>>, path: Seq<char>) -> Seq<Seq<char>>
    decreases path.len(),
{
    let k = last_start(path);
    let part = path.skip(k);
    let before = if 0 < k <= path.len() {
        walk(from, path.take(k - 1))
    } else {
        from
    };
    if descent(part) == 0 {
        before
    } else if descent(part) > 0 {
        before.push(part)
    } else if before.len() > 0 {
        before.drop_last()
    } else {
        before
    }
}

/// The place that a path leads to, given the working directory.
pub open spec fn place(cwd: Seq<Seq<char>>, path: Seq<char>) -> Seq<Seq<char>> {
    walk(
        if path.len() > 0 && path[0] == '/' {
            Seq::empty()
        } else {
            cwd
        },
        path,
    )
}

/// Whether a text can be the name of a file in a directory.
pub open spec fn is_name(s: Seq<char>) -> bool {
    s.len() > 0 && !s.contains('/') && s != seq!['.'] && s != seq!['.', '.']
}

/// A last component starts within its path, behind a slash unless the path has none.
proof fn lemma_last_start(path: Seq<char>)
    ensures
        0 <= last_start(path) <= path.len(),
        last_start(path) > 0 ==> path[last_start(path) - 1] == '/',
        forall|i: int| last_start(path) <= i < path.len() ==> path[i] != '/',
    decreases path.len(),
{
    if path.len() > 0 && path.last() != '/' {
        let rest = path.drop_last();
        lemma_last_start(rest);
        assert forall|i: int| last_start(path) <= i < path.len() implies path[i] != '/' by {
            if i < rest.len() {
                assert(rest[i] == path[i]);
            }
        }
    }
}

/// Where the last component starts, told from the slashes.
proof fn lemma_last_start_at(path: Seq<char>, at: int)
    requires
        0 <= at <= path.len(),
        at > 0 ==> path[at - 1] == '/',
        forall|i: int| at <= i < path.len() ==> path[i] != '/',
    ensures
        last_start(path) == at,
    decreases path.len(),
{
    if at < path.len() {
        lemma_last_start_at(path.drop_last(), at);
    }
}

/// A path leads out where a beginning of it does.
proof fn lemma_leaves_early(path: Seq<char>, end: int)
    requires
        0 <= end <= path.len(),
        end < path.len() ==> path[end] == '/',
        leaves(path.take(end)),
    ensures
        leaves(path),
    decreases path.len(),
{
    if end == path.len() {
        assert(path.take(end) =~= path);
    } else {
        lemma_last_start(path);
        let k = last_start(path);
        let head = path.take(k - 1);
        assert(end <= k - 1);
        assert(head.take(end) =~= path.take(end));
        lemma_leaves_early(head, end);
    }
}

/// Whether a relative path leads out of the directory that it starts in.
pub fn leads_out(path: &str) -> (yes: bool)
    ensures
        yes == leaves(path@),
{
    let n: usize = path.unicode_len();
    let mut start: usize = 0;
    let mut depth: usize = 0;
    loop
        invariant
            start <= n,
            n == path@.len(),
            depth <= start,
            start > 0 ==> path@[start - 1] == '/',
            depth == if start > 0 {
                level(path@.take(start - 1))
            } else {
                0
            },
            start > 0 ==> !leaves(path@.take(start - 1)),
        decreases n - start,
    {
        let mut end: usize = start;
        while end < n && path.get_char(end) != '/'
            invariant
                start <= end <= n,
                n == path@.len(),
                forall|i: int| start <= i < end ==> path@[i] != '/',
            decreases n - end,
        {
            end += 1;
        }
        let ghost head = path@.take(end as int);
        let ghost part = head.skip(start as int);
        proof {
            lemma_last_start_at(head, start as int);
            if start > 0 {
                assert(head.take(start - 1) =~= path@.take(start - 1));
            }
        }
        let dot: bool = end - start == 1 && path.get_char(start) == '.';
        let dots: bool = end - start == 2 && path.get_char(start) == '.' && path.get_char(start + 1)
            == '.';
        proof {
            assert(part.len() == end - start);
            if dot {
                assert(part =~= seq!['.']);
            } else if part == seq!['.'] {
                assert(part.len() == 1 && part[0] == path@[start as int]);
            }
            if dots {
                assert(part =~= seq!['.', '.']);
            } else if part == seq!['.', '.'] {
                assert(part.len() == 2 && part[0] == path@[start as int] && part[1] == path@[start
                    + 1]);
            }
            assert(level(head) == depth + descent(part));
        }
        if dots {
            if depth == 0 {
                proof {
                    lemma_leaves_early(path@, end as int);
                }
                return true;
            }
            depth -= 1;
        } else if end > start && !dot {
            depth += 1;
        }
        if end == n {
            assert(head =~= path@);
            return false;
        }
        start = end + 1;
        assert(path@.take(start - 1) =~= head);
    }
}

/// Where the last component starts in a path that goes on behind a slash.
proof fn lemma_last_start_behind(a: Seq<char>, b: Seq<char>)
    ensures
        last_start(a.push('/') + b) == a.len() + 1 + last_start(b),
    decreases b.len(),
{
    let whole = a.push('/') + b;
    if b.len() == 0 {
        assert(whole.last() == '/');
    } else if b.last() != '/' {
        assert(whole.drop_last() =~= a.push('/') + b.drop_last());
        lemma_last_start_behind(a, b.drop_last());
    }
}

/// A path leads where its second part leads from where its first part does.
proof fn lemma_walk_on(from: Seq<Seq<char>>, a: Seq<char>, b: Seq<char>)
    ensures
        walk(from, a.push('/') + b) == walk(walk(from, a), b),
    decreases b.len(),
{
    let whole = a.push('/') + b;
    let k = last_start(b);
    lemma_last_start(b);
    lemma_last_start_behind(a, b);
    assert(whole.skip(a.len() + 1 + k) =~= b.skip(k));
    if k > 0 {
        assert(whole.take(a.len() + k) =~= a.push('/') + b.take(k - 1));
        lemma_walk_on(from, a, b.take(k - 1));
    } else {
        assert(whole.take(a.len() as int) =~= a);
    }
}

/// A path that does not lead out leads below where it starts, as far down as its level says.
pub proof fn lemma_walk_below(from: Seq<Seq<char>>, path: Seq<char>)
    requires
        !leaves(path),
    ensures
        walk(from, path) == from + walk(Seq::empty(), path),
        walk(Seq::empty(), path).len() == level(path),
    decreases path.len(),
{
    let none = Seq::<Seq<char>>::empty();
    let k = last_start(path);
    let part = path.skip(k);
    lemma_last_start(path);
    let below = if k > 0 {
        walk(none, path.take(k - 1))
    } else {
        none
    };
    if k > 0 {
        lemma_walk_below(from, path.take(k - 1));
    } else {
        assert(from + none =~= from);
    }
    if descent(part) > 0 {
        assert((from + below).push(part) =~= from + below.push(part));
    } else if descent(part) < 0 {
        assert((from + below).drop_last() =~= from + below.drop_last());
    }
}

/// A path that leads to a file ends in the file's name.
pub proof fn lemma_walk_to_file(from: Seq<Seq<char>>, path: Seq<char>)
    requires
        base_name(path).len() > 0,
    ensures
        walk(from, path).len() > 0,
        walk(from, path).last() == base_name(path),
    decreases path.len(),
{
    let k = last_start(path);
    let part = path.skip(k);
    lemma_last_start(path);
    if k > 0 && (part.len() == 0 || part == seq!['.']) {
        lemma_walk_to_file(from, path.take(k - 1));
    }
}

/// A relative path under a directory leads where it leads from that directory.
pub proof fn lemma_place_under(cwd: Seq<Seq<char>>, dir: Seq<char>, path: Seq<char>)
    requires
        path.len() == 0 || path[0] != '/',
    ensures
        place(cwd, path_under(dir, path)) == walk(place(cwd, dir), path),
{
    let from = if dir.len() > 0 && dir[0] == '/' {
        Seq::empty()
    } else {
        cwd
    };
    if dir.len() == 0 {
        assert(last_start(dir) == 0);
        assert(place(cwd, dir) == cwd);
    } else if dir.last() == '/' {
        let a = dir.drop_last();
        assert(dir =~= a.push('/'));
        assert(dir =~= a.push('/') + Seq::<char>::empty());
        assert(dir + path =~= a.push('/') + path);
        lemma_walk_on(from, a, path);
        lemma_walk_on(from, a, Seq::empty());
        assert(walk(walk(from, a), Seq::empty()) == walk(from, a));
    } else {
        lemma_walk_on(from, dir, path);
    }
}

/// A name leads to the file of that name.
pub proof fn lemma_walk_name(from: Seq<Seq<char>>, name: Seq<char>)
    requires
        is_name(name),
    ensures
        walk(from, name) == from.push(name),
        name[0] != '/',
{
    assert forall|i: int| 0 <= i < name.len() implies name[i] != '/' by {
        assert(name.contains(name[i]));
    }
    lemma_last_start_at(name, 0);
    assert(name.skip(0) =~= name);
}

/// The name of the file that a path leads to is what follows its last slash, character for
/// character. A slash or a dot at the end does not count, and a double dot at the end leads to no
/// file.
pub proof fn law_last_component_is_the_name(dir: Seq<char>, part: Seq<char>)
    requires
        !part.contains('/'),
    ensures
        part.len() > 0 && part != seq!['.'] && part != seq!['.', '.'] ==> base_name(part) == part
            && base_name(dir + seq!['/'] + part) == part,
        part.len() == 0 || part == seq!['.'] ==> base_name(part).len() == 0 && base_name(
            dir + seq!['/'] + part,
        ) == base_name(dir),
        part == seq!['.', '.'] ==> base_name(part).len() == 0 && base_name(
            dir + seq!['/'] + part,
        ).len() == 0,
{
    lemma_component(dir, part);
}

/// A path is walked component by component: a name leads one directory down, a double dot one up
/// (and nowhere from the root), an empty component or a dot nowhere. A path without a slash is one
/// component.
pub proof fn law_walk_goes_by_components(
    from: Seq<Seq<char>>,
    path: Seq<char>,
    part: Seq<char>,
)
    requires
        !part.contains('/'),
    ensures
        ({
            let there = walk(from, path);
            walk(from, path + seq!['/'] + part) == if part.len() == 0 || part == seq!['.'] {
                there
            } else if part == seq!['.', '.'] {
                if there.len() > 0 {
                    there.drop_last()
                } else {
                    there
                }
            } else {
                there.push(part)
            }
        }),
        walk(from, part) == if part.len() == 0 || part == seq!['.'] {
            from
        } else if part == seq!['.', '.'] {
            if from.len() > 0 {
                from.drop_last()
            } else {
                from
            }
        } else {
            from.push(part)
        },
{
    lemma_component(path, part);
}

/// A path leads out exactly where it goes up while it is at its start: a component further on, it
/// leads out where it did so before, or where a double dot follows what has come back to the start.
pub proof fn law_leads_out_at_the_start(path: Seq<char>, part: Seq<char>)
    requires
        !part.contains('/'),
    ensures
        leaves(part) <==> part == seq!['.', '.'],
        leaves(path + seq!['/'] + part) <==> leaves(path) || (part == seq!['.', '.'] && walk(
            Seq::empty(),
            path,
        ).len() == 0),
{
    lemma_component(path, part);
    if !leaves(path) {
        lemma_walk_below(Seq::empty(), path);
    }
}

/// Where a path is absolute the working directory does not matter; a relative one starts there.
pub proof fn law_absolute_paths_start_at_the_root(
    cwd: Seq<Seq<char>>,
    other: Seq<Seq<char>>,
    path: Seq<char>,
)
    ensures
        path.len() > 0 && path[0] == '/' ==> place(cwd, path) == place(other, path),
        path.len() > 0 && path[0] == '/' ==> place(cwd, path) == walk(Seq::empty(), path),
        !(path.len() > 0 && path[0] == '/') ==> place(cwd, path) == walk(cwd, path),
{
}

/// The last component of a path, and what is in front of it.
proof fn lemma_component(path: Seq<char>, part: Seq<char>)
    requires
        !part.contains('/'),
    ensures
        ({
            let whole = path + seq!['/'] + part;
            let k = path.len() + 1;
            &&& last_start(whole) == k
            &&& whole.skip(k as int) == part
            &&& whole.take(k - 1) == path
            &&& last_start(part) == 0
            &&& part.skip(0) == part
        }),
{
    let whole = path + seq!['/'] + part;
    let k = path.len() + 1;
    assert forall|i: int| k <= i < whole.len() implies whole[i] != '/' by {
        assert(part.contains(part[i - k]));
    }
    lemma_last_start_at(whole, k as int);
    assert(whole.skip(k as int) =~= part);
    assert(whole.take(k - 1) =~= path);
    assert forall|i: int| 0 <= i < part.len() implies part[i] != '/' by {
        assert(part.contains(part[i]));
    }
    lemma_last_start_at(part, 0);
    assert(part.skip(0) =~= part);
}

/// What is said of a path by a call: it leads out exactly where it goes up while it is at its start.
pub proof fn law_leading_out(
    path: &str,
    longer: &str,
    part: Seq<char>,
    out: bool,
    further: bool,
)
    requires
        !part.contains('/'),
        longer@ == path@ + seq!['/'] + part,
        call_ensures(leads_out, (path,), out),
        call_ensures(leads_out, (longer,), further),
    ensures
        further <==> out || (part == seq!['.', '.'] && walk(Seq::empty(), path@).len() == 0),
        !path@.contains('/') ==> (out <==> path@ == seq!['.', '.']),
{
    law_leads_out_at_the_start(path@, part);
    if !path@.contains('/') {
        law_leads_out_at_the_start(path@, path@);
    }
}

/// The name of the file that a path leads to, for a call: what follows the last slash, where that is
/// a name.
pub proof fn law_naming_the_file(dir: Seq<char>, part: Seq<char>, path: &str, name: String)
    requires
        is_name(part),
        path@ == dir + seq!['/'] + part || path@ == part,
        call_ensures(file_name, (path,), name),
    ensures
        name@ == part,
{
    law_last_component_is_the_name(dir, part);
}

} // verus!
