//! Paths, held as text.
use vstd::prelude::*;

verus! {

/// `name` in the directory `dir`.
pub open spec fn joined(dir: Seq<char>, name: Seq<char>) -> Seq<char> {
    if dir.len() == 0 || dir.last() == '/' {
        dir + name
    } else {
        dir + "/"@ + name
    }
}

/// `name`, a relative path, in the directory `dir`.
pub fn join(dir: &str, name: &str) -> (r: String)
    ensures
        r@ == joined(dir@, name@),
{
    let n: usize = dir.unicode_len();
    if n == 0 || dir.get_char(n - 1) == '/' {
        dir.to_owned().concat(name)
    } else {
        dir.to_owned().concat("/").concat(name)
    }
}

/// Where the components of a path begin: behind the root, or behind a leading `.`.
pub open spec fn body_start(p: Seq<char>) -> int {
    if p.len() > 0 && (p[0] == '/' || p[0] == '.' && (p.len() == 1 || p[1] == '/')) {
        1
    } else {
        0
    }
}

/// Where the last component of `p` begins, of those from `b` on.
pub open spec fn last_start(p: Seq<char>, b: int) -> int
    decreases p.len(),
{
    if p.len() <= b || p.len() == 0 {
        b
    } else if p.last() == '/' {
        p.len() as int
    } else {
        last_start(p.drop_last(), b)
    }
}

/// `p` without its last component and the separator before it.
pub open spec fn cut_last(p: Seq<char>, b: int) -> Seq<char> {
    let i = last_start(p, b);
    p.take(
        if i > b {
            i - 1
        } else {
            b
        },
    )
}

/// Whether a component stands for nothing: it is empty or `.`.
pub open spec fn is_void(c: Seq<char>) -> bool {
    c.len() == 0 || c == seq!['.']
}

/// `p` without components at its end that stand for nothing.
pub open spec fn trimmed_end(p: Seq<char>, b: int) -> Seq<char>
    decreases p.len(),
{
    if 0 <= b < p.len() && is_void(p.skip(last_start(p, b))) {
        proof {
            lemma_last_start(p, b);
        }
        trimmed_end(cut_last(p, b), b)
    } else {
        p
    }
}

/// The last component begins behind the last separator.
pub proof fn lemma_last_start(p: Seq<char>, b: int)
    requires
        0 <= b <= p.len(),
    ensures
        b <= last_start(p, b) <= p.len(),
        b < p.len() ==> cut_last(p, b).len() < p.len(),
        cut_last(p, b).len() >= b,
        last_start(p, b) > b ==> p[last_start(p, b) - 1] == '/',
        forall|i: int| last_start(p, b) <= i < p.len() ==> p[i] != '/',
    decreases p.len(),
{
    if p.len() > b && p.last() != '/' {
        lemma_last_start(p.drop_last(), b);
        assert forall|i: int| last_start(p, b) <= i < p.len() implies p[i] != '/' by {
            if i < p.len() - 1 {
                assert(p.drop_last()[i] == p[i]);
            }
        }
    }
}

/// The directory of the file that `p` names; `p` itself if it names none, as a path does that ends
/// in `..` or has no components.
pub open spec fn dir_of(p: Seq<char>) -> Seq<char> {
    let b = body_start(p);
    let t = trimmed_end(p, b);
    if t.len() <= b || t.skip(last_start(t, b)) == seq!['.', '.'] {
        p
    } else {
        trimmed_end(cut_last(t, b), b)
    }
}

/// The path `p` with its file name replaced by `name`.
pub open spec fn renamed(p: Seq<char>, name: Seq<char>) -> Seq<char> {
    joined(dir_of(p), name)
}

fn find_last_start(p: &str, n: usize, b: usize) -> (r: usize)
    requires
        b <= n <= p@.len(),
    ensures
        r == last_start(p@.take(n as int), b as int),
        b <= r <= n,
{
    let mut i: usize = n;
    while i > b && p.get_char(i - 1) != '/'
        invariant
            b <= i <= n <= p@.len(),
            last_start(p@.take(i as int), b as int) == last_start(p@.take(n as int), b as int),
        decreases i,
    {
        proof {
            assert(p@.take(i as int).drop_last() =~= p@.take(i - 1));
        }
        i -= 1;
    }
    proof {
        if i > b {
            assert(p@.take(i as int).last() == p@[i - 1]);
        }
    }
    i
}

fn cut_end(p: &str, n: usize, b: usize) -> (r: usize)
    requires
        b <= n <= p@.len(),
    ensures
        p@.take(r as int) == cut_last(p@.take(n as int), b as int),
        b <= r <= n,
        b < n ==> r < n,
{
    let i: usize = find_last_start(p, n, b);
    let r: usize = if i > b {
        i - 1
    } else {
        b
    };
    proof {
        assert(p@.take(n as int).take(r as int) =~= p@.take(r as int));
    }
    r
}

fn trim_end(p: &str, n: usize, b: usize) -> (r: usize)
    requires
        b <= n <= p@.len(),
    ensures
        p@.take(r as int) == trimmed_end(p@.take(n as int), b as int),
        b <= r <= n,
{
    let mut e: usize = n;
    while e > b
        invariant_except_break
            trimmed_end(p@.take(e as int), b as int) == trimmed_end(
                p@.take(n as int),
                b as int,
            ),
        invariant
            b <= e <= n <= p@.len(),
        ensures
            p@.take(e as int) == trimmed_end(p@.take(n as int), b as int),
        decreases e,
    {
        let i: usize = find_last_start(p, e, b);
        let ghost c = p@.take(e as int).skip(i as int);
        let void = i == e || i + 1 == e && p.get_char(i) == '.';
        proof {
            if i < e {
                assert(c[0] == p@[i as int]);
            }
            if i + 1 == e && p@[i as int] == '.' {
                assert(c =~= seq!['.']);
            }
            if c == seq!['.'] {
                assert(c.len() == 1 && c[0] == '.');
            }
            assert(is_void(c) == void);
        }
        if !void {
            break;
        }
        e = cut_end(p, e, b);
    }
    e
}

/// The path `p` with its file name replaced by `name`, a relative path. Where `p` names no file,
/// `name` is put behind it.
pub fn with_file_name(p: &str, name: &str) -> (r: String)
    ensures
        r@ == renamed(p@, name@),
{
    let n: usize = p.unicode_len();
    proof {
        assert(p@.take(n as int) =~= p@);
    }
    let b: usize = if n > 0 && (p.get_char(0) == '/' || p.get_char(0) == '.' && (n == 1
        || p.get_char(1) == '/')) {
        1
    } else {
        0
    };
    let t: usize = trim_end(p, n, b);
    if t <= b {
        return join(p, name);
    }
    let i: usize = find_last_start(p, t, b);
    let ghost c = p@.take(t as int).skip(i as int);
    let up = t - i == 2 && p.get_char(i) == '.' && p.get_char(i + 1) == '.';
    proof {
        if i + 2 == t {
            assert(c[0] == p@[i as int] && c[1] == p@[i + 1]);
        }
        if up {
            assert(c =~= seq!['.', '.']);
        }
        if c == seq!['.', '.'] {
            assert(c.len() == 2 && c[0] == '.' && c[1] == '.');
        }
    }
    if up {
        return join(p, name);
    }
    let d: usize = trim_end(p, cut_end(p, t, b), b);
    let dir = p.substring_char(0, d);
    proof {
        assert(p@.subrange(0, d as int) =~= p@.take(d as int));
    }
    join(dir, name)
}

/// A file with a plain name in a directory with a plain name is replaced by its sibling.
pub proof fn law_siblings_stand_in_one_directory(
    base: Seq<char>,
    dir: Seq<char>,
    file: Seq<char>,
    name: Seq<char>,
)
    requires
        is_plain(dir),
        is_plain(file),
    ensures
        renamed(joined(joined(base, dir), file), name) == joined(joined(base, dir), name),
{
    let d = joined(base, dir);
    let p = joined(d, file);
    let b = body_start(p);
    assert(d.last() == dir.last());
    assert(dir.contains(dir.last()));
    assert(p =~= d + seq!['/'] + file) by {
        reveal_strlit("/");
    }
    lemma_component(d + seq!['/'], file, b);
    assert(p.skip((d.len() + 1) as int) =~= file);
    assert(trimmed_end(p, b) == p);
    assert(cut_last(p, b) =~= d);
    let start = d.len() - dir.len();
    assert(d =~= d.take(start) + dir);
    if base.len() > 0 && base.last() != '/' {
        reveal_strlit("/");
    }
    if start == 0 {
        assert(dir.contains(dir[0]));
        assert(p[0] == dir[0]);
        if dir.len() == 1 {
            assert(dir =~= seq![dir[0]]);
        } else {
            assert(dir.contains(dir[1]));
            assert(p[1] == dir[1]);
        }
    }
    lemma_component(d.take(start), dir, b);
    assert(d.skip(start) =~= dir);
    assert(trimmed_end(d, b) == d);
}

/// Whether a name is that of a file or a directory: not empty, without a separator, and neither
/// `.` nor `..`.
pub open spec fn is_plain(name: Seq<char>) -> bool {
    &&& name.len() > 0
    &&& !name.contains('/')
    &&& name != seq!['.']
    &&& name != seq!['.', '.']
}

/// What stands behind a separator, or where components begin, is the last component.
proof fn lemma_component(head: Seq<char>, c: Seq<char>, b: int)
    requires
        0 <= b <= head.len(),
        !c.contains('/'),
        head.len() == b || head.last() == '/',
    ensures
        last_start(head + c, b) == head.len(),
    decreases c.len(),
{
    if c.len() == 0 {
        assert(head + c =~= head);
    } else {
        assert((head + c).drop_last() =~= head + c.drop_last());
        assert(c.contains(c.last()));
        assert forall|x: char| c.drop_last().contains(x) implies c.contains(x) by {
            let i = choose|i: int| 0 <= i < c.drop_last().len() && c.drop_last()[i] == x;
            assert(c[i] == x);
        }
        lemma_component(head, c.drop_last(), b);
    }
}

/// A joined path begins with the directory and ends with the name, with one separator between the
/// two unless the directory brings its own or is empty.
pub proof fn law_joined_paths_hold_both(dir: Seq<char>, name: Seq<char>)
    ensures
        dir.len() == 0 ==> joined(dir, name) == name,
        dir.len() > 0 && dir.last() == '/' ==> joined(dir, name) == dir + name,
        dir.len() > 0 && dir.last() != '/' ==> joined(dir, name) == dir.push('/') + name,
{
    reveal_strlit("/");
    assert(joined(dir, name) =~= dir.push('/') + name || joined(dir, name) =~= dir + name);
    assert(dir.len() == 0 ==> dir + name =~= name);
    assert(dir + "/"@ + name =~= dir.push('/') + name);
}

/// A path that names no file is kept, and the name is put behind it: the empty path, the root, and
/// a path that leads upwards.
pub proof fn law_paths_without_a_file_are_kept(base: Seq<char>, name: Seq<char>)
    ensures
        renamed(Seq::empty(), name) == name,
        renamed(seq!['/'], name) == seq!['/'] + name,
        renamed(base.push('/') + seq!['.', '.'], name) == base.push('/') + seq!['.', '.', '/']
            + name,
{
    reveal_strlit("/");
    assert(Seq::<char>::empty() + name =~= name);
    let root = seq!['/'];
    assert(body_start(root) == 1);
    assert(trimmed_end(root, 1) == root);
    let up = base.push('/') + seq!['.', '.'];
    let b = body_start(up);
    assert(up[base.len() as int] == '/');
    if base.len() == 0 {
        assert(b == 1);
    }
    lemma_component(base.push('/'), seq!['.', '.'], b);
    assert(up.skip(base.len() as int + 1) =~= seq!['.', '.']);
    assert(seq!['.', '.'].len() == 2);
    assert(!is_void(seq!['.', '.'])) by {
        assert(seq!['.'].len() == 1);
    }
    assert(trimmed_end(up, b) == up);
    assert(up.last() == '.');
    assert(joined(up, name) =~= base.push('/') + seq!['.', '.', '/'] + name);
}

} // verus!
