//! Text primitives over sequences of characters.
use vstd::prelude::*;

verus! {

/// The characters of `s`, in order.
pub fn chars_of(s: &str) -> (v: Vec<char>)
    ensures
        v@ == s@,
{
    let mut v: Vec<char> = Vec::new();
    for c in it: s.chars()
        invariant
            it.seq() == s@,
            v@ == s@.take(it.index() as int),
    {
        v.push(c);
    }
    proof {
        assert(s@.take(s@.len() as int) == s@);
    }
    v
}

/// Whether two strings hold the same characters.
pub fn same(a: &str, b: &str) -> (r: bool)
    ensures
        r == (a@ == b@),
{
    a.to_owned() == b.to_owned()
}

/// Whether `c` has the Unicode property White_Space.
pub open spec fn is_white_space(c: char) -> bool {
    let n = c as u32;
    ||| 0x9 <= n <= 0xD
    ||| n == 0x20
    ||| n == 0x85
    ||| n == 0xA0
    ||| n == 0x1680
    ||| 0x2000 <= n <= 0x200A
    ||| n == 0x2028
    ||| n == 0x2029
    ||| n == 0x202F
    ||| n == 0x205F
    ||| n == 0x3000
}

/// Decides [`is_white_space`].
pub fn white_space(c: char) -> (r: bool)
    ensures
        r == is_white_space(c),
{
    let n: u32 = c as u32;
    (0x9 <= n && n <= 0xD) || n == 0x20 || n == 0x85 || n == 0xA0 || n == 0x1680 || (0x2000 <= n && n
        <= 0x200A) || n == 0x2028 || n == 0x2029 || n == 0x202F || n == 0x205F || n == 0x3000
}

/// `s` without its leading characters that satisfy `p`.
pub open spec fn strip_front(s: Seq<char>, p: spec_fn(char) -> bool) -> Seq<char>
    decreases s.len(),
{
    if s.len() > 0 && p(s[0]) {
        strip_front(s.drop_first(), p)
    } else {
        s
    }
}

/// `s` without its trailing characters that satisfy `p`.
pub open spec fn strip_back(s: Seq<char>, p: spec_fn(char) -> bool) -> Seq<char>
    decreases s.len(),
{
    if s.len() > 0 && p(s.last()) {
        strip_back(s.drop_last(), p)
    } else {
        s
    }
}

/// The predicate [`is_white_space`] as a value.
pub open spec fn blank() -> spec_fn(char) -> bool {
    |c: char| is_white_space(c)
}

/// `s` without leading white space.
pub open spec fn trim_start_view(s: Seq<char>) -> Seq<char> {
    strip_front(s, blank())
}

/// `s` without leading and trailing white space.
pub open spec fn trim_view(s: Seq<char>) -> Seq<char> {
    strip_back(trim_start_view(s), blank())
}

/// The index of the first character that is not white space.
fn first_non_blank(v: &Vec<char>) -> (i: usize)
    ensures
        i <= v@.len(),
        v@.skip(i as int) == trim_start_view(v@),
{
    let mut i: usize = 0;
    proof {
        assert(v@.skip(0) == v@);
    }
    while i < v.len() && white_space(v[i])
        invariant
            i <= v@.len(),
            trim_start_view(v@.skip(i as int)) == trim_start_view(v@),
        decreases v@.len() - i,
    {
        proof {
            assert(v@.skip(i as int).drop_first() == v@.skip(i + 1));
        }
        i += 1;
    }
    i
}

/// `s` without leading white space.
pub fn trim_start<'a>(s: &'a str) -> (r: &'a str)
    ensures
        r@ == trim_start_view(s@),
{
    let v = chars_of(s);
    let i: usize = first_non_blank(&v);
    let r = s.substring_char(i, v.len());
    proof {
        assert(s@.subrange(i as int, s@.len() as int) == s@.skip(i as int));
    }
    r
}

/// `s` without leading and trailing white space.
pub fn trim<'a>(s: &'a str) -> (r: &'a str)
    ensures
        r@ == trim_view(s@),
{
    let v = chars_of(s);
    let i: usize = first_non_blank(&v);
    let mut j: usize = v.len();
    let ghost head = v@.skip(i as int);
    proof {
        assert(v@.subrange(i as int, j as int) == head);
    }
    while i < j && white_space(v[j - 1])
        invariant
            i <= j <= v@.len(),
            strip_back(v@.subrange(i as int, j as int), blank()) == strip_back(head, blank()),
        decreases j,
    {
        proof {
            assert(v@.subrange(i as int, j as int).drop_last() == v@.subrange(i as int, j - 1));
        }
        j -= 1;
    }
    s.substring_char(i, j)
}

/// `s` without its trailing characters that satisfy `p`, which `f` decides.
pub fn trim_end_where<'a, F: Fn(char) -> bool>(
    s: &'a str,
    f: F,
    Ghost(p): Ghost<spec_fn(char) -> bool>,
) -> (r: &'a str)
    requires
        forall|c: char| #[trigger] call_requires(f, (c,)),
        forall|c: char, b: bool| #[trigger] call_ensures(f, (c,), b) ==> b == p(c),
    ensures
        r@ == strip_back(s@, p),
{
    let v = chars_of(s);
    let mut j: usize = v.len();
    proof {
        assert(v@.take(j as int) == s@);
    }
    while j > 0
        invariant_except_break
            j <= v@.len(),
            forall|c: char| #[trigger] call_requires(f, (c,)),
            forall|c: char, b: bool| #[trigger] call_ensures(f, (c,), b) ==> b == p(c),
            strip_back(v@.take(j as int), p) == strip_back(v@, p),
        ensures
            j <= v@.len(),
            v@.take(j as int) == strip_back(v@, p),
        decreases j,
    {
        if !f(v[j - 1]) {
            break;
        }
        proof {
            assert(v@.take(j as int).drop_last() == v@.take(j - 1));
        }
        j -= 1;
    }
    proof {
        assert(s@.subrange(0, j as int) == s@.take(j as int));
    }
    s.substring_char(0, j)
}

/// The pieces of `s` between the characters that satisfy `p`.
pub open spec fn pieces(s: Seq<char>, p: spec_fn(char) -> bool) -> Seq<Seq<char>>
    decreases s.len(),
{
    if s.len() == 0 {
        seq![Seq::empty()]
    } else {
        let q = pieces(s.drop_last(), p);
        if p(s.last()) {
            q.push(Seq::empty())
        } else {
            q.drop_last().push(q.last().push(s.last()))
        }
    }
}

/// The pieces of `s` between the characters that satisfy `p`, which `f` decides.
pub fn split_where<'a, F: Fn(char) -> bool>(
    s: &'a str,
    f: F,
    Ghost(p): Ghost<spec_fn(char) -> bool>,
) -> (r: Vec<&'a str>)
    requires
        forall|c: char| #[trigger] call_requires(f, (c,)),
        forall|c: char, b: bool| #[trigger] call_ensures(f, (c,), b) ==> b == p(c),
    ensures
        r.deep_view() == pieces(s@, p),
{
    let v = chars_of(s);
    let mut r: Vec<&'a str> = Vec::new();
    let mut start: usize = 0;
    let mut i: usize = 0;
    proof {
        assert(v@.take(0) =~= Seq::empty());
        assert(r.deep_view() =~= Seq::empty());
        assert(v@.subrange(0, 0) =~= Seq::empty());
        assert(seq![Seq::<char>::empty()].drop_last() =~= Seq::empty());
    }
    while i < v.len()
        invariant
            v@ == s@,
            start <= i <= v@.len(),
            forall|c: char| #[trigger] call_requires(f, (c,)),
            forall|c: char, b: bool| #[trigger] call_ensures(f, (c,), b) ==> b == p(c),
            pieces(v@.take(i as int), p).len() > 0,
            r.deep_view() == pieces(v@.take(i as int), p).drop_last(),
            v@.subrange(start as int, i as int) == pieces(v@.take(i as int), p).last(),
        decreases v@.len() - i,
    {
        let ghost q = pieces(v@.take(i as int), p);
        let ghost sofar = r.deep_view();
        proof {
            assert(v@.take(i + 1).drop_last() =~= v@.take(i as int));
            assert(v@.take(i + 1).last() == v@[i as int]);
        }
        if f(v[i]) {
            let piece = s.substring_char(start, i);
            r.push(piece);
            start = i + 1;
            proof {
                assert(r.deep_view() =~= sofar.push(piece@));
                assert(q =~= q.drop_last().push(q.last()));
                assert(q.push(Seq::empty()).drop_last() =~= q);
                assert(v@.subrange(start as int, i + 1) =~= Seq::empty());
            }
        } else {
            proof {
                assert(v@.subrange(start as int, i + 1) =~= v@.subrange(
                    start as int,
                    i as int,
                ).push(v@[i as int]));
                let t = q.drop_last().push(q.last().push(v@[i as int]));
                assert(t.drop_last() =~= q.drop_last());
            }
        }
        i += 1;
    }
    let ghost sofar = r.deep_view();
    let piece = s.substring_char(start, v.len());
    r.push(piece);
    proof {
        assert(v@.take(v@.len() as int) =~= s@);
        let q = pieces(s@, p);
        assert(r.deep_view() =~= sofar.push(piece@));
        assert(q =~= q.drop_last().push(q.last()));
    }
    r
}

/// The strings `parts` with `sep` between them.
pub open spec fn join_view(parts: Seq<Seq<char>>, sep: Seq<char>) -> Seq<char>
    decreases parts.len(),
{
    if parts.len() == 0 {
        Seq::empty()
    } else if parts.len() == 1 {
        parts[0]
    } else {
        join_view(parts.drop_last(), sep) + sep + parts.last()
    }
}

/// Joins `parts` with `sep` between them.
pub fn join(parts: &Vec<String>, sep: &str) -> (r: String)
    ensures
        r@ == join_view(parts.deep_view(), sep@),
{
    let mut r: String = String::new();
    let mut i: usize = 0;
    let ghost all = parts.deep_view();
    while i < parts.len()
        invariant
            i <= parts@.len(),
            all == parts.deep_view(),
            r@ == join_view(all.take(i as int), sep@),
        decreases parts@.len() - i,
    {
        proof {
            assert(all.take(i + 1).drop_last() =~= all.take(i as int));
            assert(all.take(i + 1).last() == parts@[i as int]@);
        }
        if i > 0 {
            r.append(sep);
        } else {
            proof {
                assert(r@ + parts@[0]@ =~= parts@[0]@);
            }
        }
        r.append(&parts[i]);
        i += 1;
    }
    proof {
        assert(all.take(all.len() as int) =~= all);
    }
    r
}

/// `b` in words.
pub open spec fn bool_view(b: bool) -> Seq<char> {
    if b {
        "true"@
    } else {
        "false"@
    }
}

/// Writes `b` in words.
pub fn bool_str(b: bool) -> (r: &'static str)
    ensures
        r@ == bool_view(b),
{
    if b {
        "true"
    } else {
        "false"
    }
}

/// Whether `s` begins with `p`.
pub open spec fn has_prefix(s: Seq<char>, p: Seq<char>) -> bool {
    p.len() <= s.len() && s.take(p.len() as int) == p
}

/// Whether the list `s` begins with the list `p`.
pub open spec fn has_list_prefix<A>(s: Seq<A>, p: Seq<A>) -> bool {
    p.len() <= s.len() && s.take(p.len() as int) == p
}

/// Whether `s` ends with `p`.
pub open spec fn has_suffix(s: Seq<char>, p: Seq<char>) -> bool {
    p.len() <= s.len() && s.skip(s.len() - p.len()) == p
}

/// Decides [`has_prefix`].
pub fn starts_with(s: &str, p: &str) -> (r: bool)
    ensures
        r == has_prefix(s@, p@),
{
    let n: usize = p.unicode_len();
    if n <= s.unicode_len() {
        let head = s.substring_char(0, n);
        proof {
            assert(s@.subrange(0, n as int) == s@.take(n as int));
        }
        same(head, p)
    } else {
        false
    }
}

/// Decides [`has_suffix`].
pub fn ends_with(s: &str, p: &str) -> (r: bool)
    ensures
        r == has_suffix(s@, p@),
{
    let n: usize = p.unicode_len();
    let m: usize = s.unicode_len();
    if n <= m {
        let tail = s.substring_char(m - n, m);
        proof {
            assert(s@.subrange(m - n, m as int) == s@.skip(m - n));
        }
        same(tail, p)
    } else {
        false
    }
}

/// What follows the prefix `p` in `s`, if `s` begins with it.
pub fn strip_prefix<'a>(s: &'a str, p: &str) -> (r: Option<&'a str>)
    ensures
        match r {
            Some(t) => has_prefix(s@, p@) && t@ == s@.skip(p@.len() as int),
            None => !has_prefix(s@, p@),
        },
{
    if starts_with(s, p) {
        let n: usize = p.unicode_len();
        let m: usize = s.unicode_len();
        let t = s.substring_char(n, m);
        proof {
            assert(s@.subrange(n as int, m as int) == s@.skip(n as int));
        }
        Some(t)
    } else {
        None
    }
}

/// What precedes the suffix `p` in `s`, if `s` ends with it.
pub fn strip_suffix<'a>(s: &'a str, p: &str) -> (r: Option<&'a str>)
    ensures
        match r {
            Some(t) => has_suffix(s@, p@) && t@ == s@.take(s@.len() - p@.len()),
            None => !has_suffix(s@, p@),
        },
{
    if ends_with(s, p) {
        let n: usize = p.unicode_len();
        let m: usize = s.unicode_len();
        let t = s.substring_char(0, m - n);
        proof {
            assert(s@.subrange(0, m - n) == s@.take(m - n));
        }
        Some(t)
    } else {
        None
    }
}

/// The parts of `s` before and after its first `c`.
pub open spec fn split_once_view(s: Seq<char>, c: char) -> Option<(Seq<char>, Seq<char>)> {
    match first_index(s, c) {
        Some(i) => Some((s.take(i), s.skip(i + 1))),
        None => None,
    }
}

/// The least index at which `s` holds `c`.
pub open spec fn first_index(s: Seq<char>, c: char) -> Option<int> {
    if s.contains(c) {
        Some(choose|i: int|
            0 <= i < s.len() && s[i] == c && forall|j: int| 0 <= j < i ==> s[j] != c)
    } else {
        None
    }
}

/// A first occurrence is unique, so it is what [`first_index`] gives.
pub proof fn lemma_first_index(s: Seq<char>, c: char, i: int)
    requires
        0 <= i < s.len(),
        s[i] == c,
        forall|j: int| 0 <= j < i ==> s[j] != c,
    ensures
        first_index(s, c) == Some(i),
{
    assert(s.contains(c));
    let k = choose|k: int|
        0 <= k < s.len() && s[k] == c && forall|j: int| 0 <= j < k ==> s[j] != c;
    assert(0 <= k < s.len() && s[k] == c && forall|j: int| 0 <= j < k ==> s[j] != c);
    if k < i {
        assert(s[k] != c);
    }
    if i < k {
        assert(s[i] != c);
    }
}

/// What [`first_index`] gives is a first occurrence.
pub proof fn lemma_first_index_is(s: Seq<char>, c: char)
    requires
        s.contains(c),
    ensures
        first_index(s, c) is Some,
        0 <= first_index(s, c)->0 < s.len(),
        s[first_index(s, c)->0] == c,
        forall|j: int| 0 <= j < first_index(s, c)->0 ==> s[j] != c,
    decreases s.len(),
{
    let i = choose|i: int| 0 <= i < s.len() && s[i] == c;
    lemma_least(s, c, i);
    let k = choose|k: int|
        0 <= k < s.len() && s[k] == c && forall|j: int| 0 <= j < k ==> s[j] != c;
    lemma_first_index(s, c, k);
}

proof fn lemma_least(s: Seq<char>, c: char, i: int)
    requires
        0 <= i < s.len(),
        s[i] == c,
    ensures
        exists|k: int| 0 <= k < s.len() && s[k] == c && forall|j: int| 0 <= j < k ==> s[j] != c,
    decreases i,
{
    if exists|j: int| 0 <= j < i && s[j] == c {
        let j = choose|j: int| 0 <= j < i && s[j] == c;
        lemma_least(s, c, j);
    } else {
        assert(0 <= i < s.len() && s[i] == c && forall|j: int| 0 <= j < i ==> s[j] != c);
    }
}

/// Trimmed text does not end in white space.
pub proof fn lemma_trimmed_end(s: Seq<char>)
    ensures
        trim_view(s).len() > 0 ==> !is_white_space(trim_view(s).last()),
{
    lemma_stripped_end(trim_start_view(s));
}

proof fn lemma_stripped_end(s: Seq<char>)
    ensures
        strip_back(s, blank()).len() > 0 ==> !is_white_space(strip_back(s, blank()).last()),
    decreases s.len(),
{
    if s.len() > 0 && blank()(s.last()) {
        lemma_stripped_end(s.drop_last());
    }
}

/// Text without white space at its ends is left as it is by trimming.
pub proof fn lemma_trim_nothing(s: Seq<char>)
    requires
        s.len() > 0,
        !is_white_space(s[0]),
        !is_white_space(s.last()),
    ensures
        trim_view(s) == s,
{
}

/// Splits `s` at its first `c`.
pub fn split_once<'a>(s: &'a str, c: char) -> (r: Option<(&'a str, &'a str)>)
    ensures
        match r {
            Some(p) => split_once_view(s@, c) == Some((p.0@, p.1@)),
            None => split_once_view(s@, c) is None,
        },
{
    let v = chars_of(s);
    let mut i: usize = 0;
    while i < v.len()
        invariant
            i <= v@.len(),
            v@ == s@,
            forall|j: int| 0 <= j < i ==> s@[j] != c,
        decreases v@.len() - i,
    {
        if v[i] == c {
            proof {
                lemma_first_index(s@, c, i as int);
                assert(s@.subrange(0, i as int) == s@.take(i as int));
                assert(s@.subrange(i + 1, s@.len() as int) == s@.skip(i + 1));
            }
            return Some((s.substring_char(0, i), s.substring_char(i + 1, v.len())));
        }
        i += 1;
    }
    None
}

/// Whether `p` stands at `i` in `s`.
pub open spec fn occurs_at(s: Seq<char>, p: Seq<char>, i: int) -> bool {
    0 <= i && i + p.len() <= s.len() && s.subrange(i, i + p.len()) == p
}

/// The first place from `from` on at which `p` stands in `s`.
pub open spec fn occurrence_from(s: Seq<char>, p: Seq<char>, from: int) -> Option<int>
    decreases s.len() + 1 - from,
{
    if from < 0 || from + p.len() > s.len() {
        None
    } else if occurs_at(s, p, from) {
        Some(from)
    } else {
        occurrence_from(s, p, from + 1)
    }
}

/// The first place at which `p` stands in `s`, in characters.
pub fn find(s: &str, p: &str) -> (r: Option<usize>)
    ensures
        match r {
            Some(i) => occurrence_from(s@, p@, 0) == Some(i as int) && occurs_at(s@, p@, i as int),
            None => occurrence_from(s@, p@, 0) is None,
        },
{
    let n: usize = s.unicode_len();
    let m: usize = p.unicode_len();
    let mut i: usize = 0;
    while i <= n && m <= n - i
        invariant
            n == s@.len(),
            m == p@.len(),
            i <= n + 1,
            occurrence_from(s@, p@, 0) == occurrence_from(s@, p@, i as int),
        decreases n + 1 - i,
    {
        if same(s.substring_char(i, i + m), p) {
            return Some(i);
        }
        if i == n {
            proof {
                assert(occurrence_from(s@, p@, i + 1) is None);
            }
            return None;
        }
        i += 1;
    }
    None
}

/// `s` without its leading line breaks.
pub open spec fn without_leading_breaks(s: Seq<char>) -> Seq<char> {
    strip_front(s, |c: char| c == '\n')
}

/// `s` without its leading line breaks.
pub fn strip_leading_breaks<'a>(s: &'a str) -> (r: &'a str)
    ensures
        r@ == without_leading_breaks(s@),
{
    let v = chars_of(s);
    let ghost p = |c: char| c == '\n';
    let mut i: usize = 0;
    proof {
        assert(v@.skip(0) =~= v@);
    }
    while i < v.len() && v[i] == '\n'
        invariant
            i <= v@.len(),
            p == (|c: char| c == '\n'),
            strip_front(v@.skip(i as int), p) == strip_front(v@, p),
        decreases v@.len() - i,
    {
        proof {
            assert(v@.skip(i as int).drop_first() =~= v@.skip(i + 1));
        }
        i += 1;
    }
    let r = s.substring_char(i, v.len());
    proof {
        assert(r@ =~= v@.skip(i as int));
    }
    r
}

/// The number of bytes of `s` in UTF-8.
pub open spec fn byte_len_view(s: Seq<char>) -> nat {
    vstd::utf8::encode_utf8(s).len()
}

/// The number of bytes of `s` in UTF-8.
pub fn byte_len(s: &str) -> (r: usize)
    ensures
        r == byte_len_view(s@),
{
    s.as_bytes().len()
}

/// The number of bytes of `c` in UTF-8.
pub open spec fn char_width(c: char) -> nat {
    if (c as u32) < 0x80 {
        1
    } else if (c as u32) < 0x800 {
        2
    } else if (c as u32) < 0x10000 {
        3
    } else {
        4
    }
}

/// The number of bytes of `c` in UTF-8.
fn width_of(c: char) -> (r: usize)
    ensures
        r == char_width(c),
{
    let n: u32 = c as u32;
    if n < 0x80 {
        1
    } else if n < 0x800 {
        2
    } else if n < 0x10000 {
        3
    } else {
        4
    }
}

proof fn lemma_byte_len_first(s: Seq<char>)
    requires
        s.len() > 0,
    ensures
        byte_len_view(s) == char_width(s[0]) + byte_len_view(s.drop_first()),
{
    vstd::utf8::char_is_scalar(s[0]);
}

/// One character more adds the bytes of that character.
pub proof fn lemma_byte_len_push(s: Seq<char>, c: char)
    ensures
        byte_len_view(s.push(c)) == byte_len_view(s) + char_width(c),
    decreases s.len(),
{
    lemma_byte_len_first(s.push(c));
    if s.len() == 0 {
        assert(s.push(c).drop_first() =~= s);
    } else {
        lemma_byte_len_first(s);
        assert(s.push(c).drop_first() =~= s.drop_first().push(c));
        lemma_byte_len_push(s.drop_first(), c);
    }
}

/// Whether `r` is the longest beginning of `s` that has at most `cap` bytes in UTF-8.
pub open spec fn is_capped(r: Seq<char>, s: Seq<char>, cap: nat) -> bool {
    &&& r.len() <= s.len()
    &&& r == s.take(r.len() as int)
    &&& byte_len_view(r) <= cap
    &&& r.len() < s.len() ==> byte_len_view(s.take((r.len() + 1) as int)) > cap
}

/// The longest beginning of `s` that has at most `cap` bytes in UTF-8.
pub fn cap_bytes<'a>(s: &'a str, cap: usize) -> (r: &'a str)
    ensures
        is_capped(r@, s@, cap as nat),
{
    let v = chars_of(s);
    let mut used: usize = 0;
    let mut i: usize = 0;
    proof {
        assert(s@.take(0) =~= Seq::empty());
    }
    while i < v.len()
        invariant
            v@ == s@,
            i <= v@.len(),
            used <= cap,
            used == byte_len_view(s@.take(i as int)),
        decreases v@.len() - i,
    {
        let w: usize = width_of(v[i]);
        proof {
            lemma_byte_len_push(s@.take(i as int), s@[i as int]);
            assert(s@.take(i + 1) =~= s@.take(i as int).push(s@[i as int]));
        }
        if w > cap - used {
            let r = s.substring_char(0, i);
            proof {
                assert(r@ =~= s@.take(i as int));
            }
            return r;
        }
        used = used + w;
        i += 1;
    }
    proof {
        assert(s@.take(s@.len() as int) =~= s@);
    }
    s
}

/// `c` with an ASCII capital letter made small.
pub open spec fn lower_char(c: char) -> char {
    if 65 <= c as u32 <= 90 {
        ((c as int) + 32) as char
    } else {
        c
    }
}

/// `c` with an ASCII capital letter made small.
pub fn lower(c: char) -> (r: char)
    ensures
        r == lower_char(c),
{
    let n: u32 = c as u32;
    if 65 <= n && n <= 90 {
        let m: u8 = (n as u8) + 32;
        m as char
    } else {
        c
    }
}

/// `s` with its ASCII capital letters made small.
pub open spec fn lower_view(s: Seq<char>) -> Seq<char> {
    s.map_values(|c: char| lower_char(c))
}

/// The characters of `s` with the ASCII capital letters made small.
pub fn lower_chars(s: &str) -> (r: Vec<char>)
    ensures
        r@ == lower_view(s@),
{
    let v = chars_of(s);
    let mut r: Vec<char> = Vec::new();
    let mut i: usize = 0;
    while i < v.len()
        invariant
            i <= v@.len(),
            v@ == s@,
            r@.len() == i,
            forall|j: int| 0 <= j < i ==> r@[j] == lower_char(s@[j]),
        decreases v@.len() - i,
    {
        r.push(lower(v[i]));
        i += 1;
    }
    r
}

/// Decides whether `s` begins with `p` when ASCII case is disregarded.
pub fn starts_with_ignoring_case(s: &str, p: &str) -> (r: bool)
    ensures
        r == has_prefix(lower_view(s@), lower_view(p@)),
{
    let a = lower_chars(s);
    let b = lower_chars(p);
    if b.len() > a.len() {
        return false;
    }
    let mut i: usize = 0;
    while i < b.len()
        invariant
            i <= b@.len() <= a@.len(),
            a@ == lower_view(s@),
            b@ == lower_view(p@),
            forall|j: int| 0 <= j < i ==> a@[j] == b@[j],
        decreases b@.len() - i,
    {
        if a[i] != b[i] {
            proof {
                assert(a@.take(b@.len() as int)[i as int] != b@[i as int]);
            }
            return false;
        }
        i += 1;
    }
    proof {
        assert(a@.take(b@.len() as int) == b@);
    }
    true
}

/// The decimal digit `d`.
pub open spec fn digit(d: nat) -> char {
    ((48 + d) as u8) as char
}

/// `n` in decimal, without leading zeros.
pub open spec fn decimal_view(n: nat) -> Seq<char>
    decreases n,
{
    if n < 10 {
        seq![digit(n)]
    } else {
        decimal_view(n / 10).push(digit(n % 10))
    }
}

fn digit_str(d: u64) -> (r: &'static str)
    requires
        d < 10,
    ensures
        r@ == seq![digit(d as nat)],
{
    proof {
        reveal_strlit("0");
        reveal_strlit("1");
        reveal_strlit("2");
        reveal_strlit("3");
        reveal_strlit("4");
        reveal_strlit("5");
        reveal_strlit("6");
        reveal_strlit("7");
        reveal_strlit("8");
        reveal_strlit("9");
    }
    if d == 0 {
        "0"
    } else if d == 1 {
        "1"
    } else if d == 2 {
        "2"
    } else if d == 3 {
        "3"
    } else if d == 4 {
        "4"
    } else if d == 5 {
        "5"
    } else if d == 6 {
        "6"
    } else if d == 7 {
        "7"
    } else if d == 8 {
        "8"
    } else {
        "9"
    }
}

/// Writes `n` in decimal.
pub fn decimal(n: u64) -> (r: String)
    ensures
        r@ == decimal_view(n as nat),
    decreases n,
{
    if n < 10 {
        digit_str(n).to_owned()
    } else {
        let mut r: String = decimal(n / 10);
        r.append(digit_str(n % 10));
        proof {
            assert(r@ == decimal_view((n / 10) as nat).push(digit((n % 10) as nat)));
        }
        r
    }
}

/// The order of strings: the order of the first characters that differ, a proper prefix coming
/// first.
pub open spec fn str_lt(a: Seq<char>, b: Seq<char>) -> bool
    decreases a.len(),
{
    if b.len() == 0 {
        false
    } else if a.len() == 0 {
        true
    } else if a[0] != b[0] {
        a[0] < b[0]
    } else {
        str_lt(a.drop_first(), b.drop_first())
    }
}

/// No string precedes itself.
pub proof fn lemma_str_lt_irreflexive(a: Seq<char>)
    ensures
        !str_lt(a, a),
    decreases a.len(),
{
    if a.len() > 0 {
        lemma_str_lt_irreflexive(a.drop_first());
    }
}

/// The order of strings is transitive.
pub proof fn lemma_str_lt_transitive(a: Seq<char>, b: Seq<char>, c: Seq<char>)
    requires
        str_lt(a, b),
        str_lt(b, c),
    ensures
        str_lt(a, c),
    decreases a.len(),
{
    if a.len() > 0 && b.len() > 0 && c.len() > 0 && a[0] == b[0] && b[0] == c[0] {
        lemma_str_lt_transitive(a.drop_first(), b.drop_first(), c.drop_first());
    }
}

/// Of two different strings one precedes the other.
pub proof fn lemma_str_lt_total(a: Seq<char>, b: Seq<char>)
    ensures
        str_lt(a, b) || str_lt(b, a) || a == b,
    decreases a.len(),
{
    if a.len() > 0 && b.len() > 0 && a[0] == b[0] {
        lemma_str_lt_total(a.drop_first(), b.drop_first());
        if a.drop_first() == b.drop_first() {
            assert(a == seq![a[0]] + a.drop_first());
            assert(b == seq![b[0]] + b.drop_first());
        }
    } else if a.len() == 0 && b.len() == 0 {
        assert(a == b);
    }
}

/// Decides [`str_lt`].
pub fn precedes(a: &str, b: &str) -> (r: bool)
    ensures
        r == str_lt(a@, b@),
{
    let x = chars_of(a);
    let y = chars_of(b);
    let mut i: usize = 0;
    proof {
        assert(x@.skip(0) == x@);
        assert(y@.skip(0) == y@);
    }
    while i < x.len() && i < y.len() && x[i] == y[i]
        invariant
            i <= x@.len(),
            i <= y@.len(),
            str_lt(x@.skip(i as int), y@.skip(i as int)) == str_lt(x@, y@),
        decreases x@.len() - i,
    {
        proof {
            assert(x@.skip(i as int).drop_first() == x@.skip(i + 1));
            assert(y@.skip(i as int).drop_first() == y@.skip(i + 1));
        }
        i += 1;
    }
    if i >= y.len() {
        false
    } else if i >= x.len() {
        true
    } else {
        x[i] < y[i]
    }
}

/// `n` times the character `c`.
pub open spec fn repeated(c: char, n: nat) -> Seq<char> {
    Seq::new(n, |i: int| c)
}

/// `n` times the one character of `unit`.
pub fn repeat(unit: &str, n: usize) -> (r: String)
    requires
        unit@.len() == 1,
    ensures
        r@ == repeated(unit@[0], n as nat),
{
    let mut r: String = String::new();
    let mut i: usize = 0;
    proof {
        assert(r@ =~= repeated(unit@[0], 0));
    }
    while i < n
        invariant
            i <= n,
            unit@.len() == 1,
            r@ == repeated(unit@[0], i as nat),
        decreases n - i,
    {
        r.append(unit);
        proof {
            assert(r@ =~= repeated(unit@[0], (i + 1) as nat));
        }
        i += 1;
    }
    r
}

/// `s` with blanks behind it up to the width `w`.
pub open spec fn padded(s: Seq<char>, w: nat) -> Seq<char> {
    if s.len() < w {
        s + repeated(' ', (w - s.len()) as nat)
    } else {
        s
    }
}

/// `s` with blanks behind it up to the width `w`.
pub fn pad(s: &str, w: usize) -> (r: String)
    ensures
        r@ == padded(s@, w as nat),
{
    let n: usize = s.unicode_len();
    if n < w {
        proof {
            reveal_strlit(" ");
        }
        let blanks = repeat(" ", w - n);
        s.to_owned().concat(&blanks)
    } else {
        s.to_owned()
    }
}

/// The number of line breaks in a text.
pub open spec fn breaks(s: Seq<char>) -> nat {
    s.filter(|c: char| c == '\n').len()
}

/// Line breaks add up.
pub proof fn lemma_breaks_add(a: Seq<char>, b: Seq<char>)
    ensures
        breaks(a + b) == breaks(a) + breaks(b),
{
    Seq::filter_distributes_over_add(a, b, |c: char| c == '\n');
}

/// A text within one line has no line break.
pub proof fn lemma_no_breaks(s: Seq<char>)
    requires
        !s.contains('\n'),
    ensures
        breaks(s) == 0,
{
    let p = |c: char| c == '\n';
    assert forall|i: int| 0 <= i < s.len() implies !p(#[trigger] s[i]) by {
        assert(s.contains(s[i]));
    }
    crate::seqs::lemma_filter_none(s, p);
}

/// A number is within one line.
pub proof fn lemma_decimal_line(n: nat)
    ensures
        !decimal_view(n).contains('\n'),
    decreases n,
{
    let s = decimal_view(n);
    if n >= 10 {
        lemma_decimal_line(n / 10);
        assert forall|i: int| 0 <= i < s.len() implies s[i] != '\n' by {
            if i < s.len() - 1 {
                assert(decimal_view(n / 10)[i] == s[i]);
                assert(decimal_view(n / 10).contains(s[i]));
            }
        }
    }
}

/// `s` with blanks before it up to the width `w`.
pub open spec fn right_aligned(s: Seq<char>, w: nat) -> Seq<char> {
    if s.len() < w {
        repeated(' ', (w - s.len()) as nat) + s
    } else {
        s
    }
}

/// `s` with blanks before it up to the width `w`.
pub fn align_right(s: &str, w: usize) -> (r: String)
    ensures
        r@ == right_aligned(s@, w as nat),
{
    let n: usize = s.unicode_len();
    if n < w {
        proof {
            reveal_strlit(" ");
        }
        let blanks = repeat(" ", w - n);
        blanks.concat(s)
    } else {
        s.to_owned()
    }
}

/// Stripping takes away exactly the characters at one end that satisfy the predicate: what goes
/// satisfies it, what stays does not begin, or end, with one that does, and the two make up the text.
pub proof fn law_stripping_takes_one_end(s: Seq<char>, p: spec_fn(char) -> bool)
    ensures
        strip_front(s, p).len() <= s.len(),
        strip_front(s, p) == s.skip(s.len() - strip_front(s, p).len()),
        forall|i: int| 0 <= i < s.len() - strip_front(s, p).len() ==> p(#[trigger] s[i]),
        strip_front(s, p).len() > 0 ==> !p(strip_front(s, p)[0]),
        strip_back(s, p).len() <= s.len(),
        strip_back(s, p) == s.take(strip_back(s, p).len() as int),
        forall|i: int| strip_back(s, p).len() <= i < s.len() ==> p(#[trigger] s[i]),
        strip_back(s, p).len() > 0 ==> !p(strip_back(s, p).last()),
    decreases s.len(),
{
    if s.len() > 0 && p(s[0]) {
        let t = s.drop_first();
        law_stripping_takes_one_end(t, p);
        let r = strip_front(t, p);
        assert(s.skip(s.len() - r.len()) =~= t.skip(t.len() - r.len()));
        assert forall|i: int| 0 <= i < s.len() - r.len() implies p(#[trigger] s[i]) by {
            if i > 0 {
                assert(t[i - 1] == s[i]);
            }
        }
    } else {
        assert(s.skip(0) =~= s);
    }
    if s.len() > 0 && p(s.last()) {
        let t = s.drop_last();
        law_stripping_takes_one_end(t, p);
        let r = strip_back(t, p);
        assert(s.take(r.len() as int) =~= t.take(r.len() as int));
        assert forall|i: int| r.len() <= i < s.len() implies p(#[trigger] s[i]) by {
            if i < s.len() - 1 {
                assert(t[i] == s[i]);
            }
        }
    } else {
        assert(s.take(s.len() as int) =~= s);
    }
}

/// Trimming gives back what stands between white space.
pub proof fn law_trimming_finds_the_core(before: Seq<char>, core: Seq<char>, after: Seq<char>)
    requires
        forall|i: int| 0 <= i < before.len() ==> is_white_space(#[trigger] before[i]),
        forall|i: int| 0 <= i < after.len() ==> is_white_space(#[trigger] after[i]),
        core.len() > 0 ==> !is_white_space(core[0]) && !is_white_space(core.last()),
    ensures
        trim_view(before + core + after) == core,
        core.len() > 0 ==> trim_start_view(before + core + after) == core + after,
{
    let s = before + core + after;
    let p = blank();
    law_stripping_takes_one_end(s, p);
    let t = strip_front(s, p);
    law_stripping_takes_one_end(t, p);
    let r = strip_back(t, p);
    let k = s.len() - t.len();
    if core.len() > 0 {
        assert(s[before.len() as int] == core[0]);
        if k < before.len() {
            assert(t[0] == s[k]);
            assert(s[k] == before[k]);
        }
        assert(k == before.len());
        assert(t =~= core + after);
        assert(t[core.len() - 1] == core.last());
        if r.len() > core.len() {
            assert(r.last() == t[r.len() - 1]);
            assert(t[r.len() - 1] == after[r.len() - 1 - core.len()]);
        }
        assert(r =~= core);
    } else {
        if t.len() > 0 {
            assert(t[0] == s[k]);
            if k < before.len() {
                assert(s[k] == before[k]);
            } else {
                assert(s[k] == after[k - before.len()]);
            }
        }
        assert(r =~= core);
    }
}

/// Blanks, tabs and line ends are white space; no other character up to the end of ASCII is.
pub proof fn law_white_space_in_ascii(c: char)
    requires
        (c as u32) < 128,
    ensures
        is_white_space(c) <==> c == ' ' || c == '\t' || c == '\n' || c == '\r' || c as u32 == 11
            || c as u32 == 12,
{
}

/// Texts are split at each separator and nowhere else: what stands on both sides of one is split
/// on its own, and a text without one is a single piece.
pub proof fn law_pieces_are_split_at_separators(
    a: Seq<char>,
    c: char,
    b: Seq<char>,
    p: spec_fn(char) -> bool,
)
    ensures
        p(c) ==> pieces(a.push(c) + b, p) == pieces(a, p) + pieces(b, p),
        (forall|i: int| 0 <= i < a.len() ==> !p(#[trigger] a[i])) ==> pieces(a, p) == seq![a],
        pieces(a, p).len() >= 1,
        forall|i: int, j: int|
            0 <= i < pieces(a, p).len() && 0 <= j < pieces(a, p)[i].len() ==> !p(
                #[trigger] pieces(a, p)[i][j],
            ),
    decreases b.len(),
{
    lemma_pieces(a, p);
    if p(c) {
        if b.len() == 0 {
            assert(a.push(c) + b =~= a.push(c));
            assert(a.push(c).drop_last() =~= a);
            assert(pieces(a.push(c) + b, p) =~= pieces(a, p) + pieces(b, p));
        } else {
            let t = b.drop_last();
            law_pieces_are_split_at_separators(a, c, t, p);
            lemma_pieces(t, p);
            assert((a.push(c) + b).drop_last() =~= a.push(c) + t);
            assert(pieces(a.push(c) + b, p) =~= pieces(a, p) + pieces(b, p));
        }
    }
}

proof fn lemma_pieces(a: Seq<char>, p: spec_fn(char) -> bool)
    ensures
        (forall|i: int| 0 <= i < a.len() ==> !p(#[trigger] a[i])) ==> pieces(a, p) == seq![a],
        pieces(a, p).len() >= 1,
        forall|i: int, j: int|
            0 <= i < pieces(a, p).len() && 0 <= j < pieces(a, p)[i].len() ==> !p(
                #[trigger] pieces(a, p)[i][j],
            ),
    decreases a.len(),
{
    if a.len() == 0 {
        assert(a =~= Seq::empty());
        assert(pieces(a, p) =~= seq![a]);
    } else {
        let t = a.drop_last();
        lemma_pieces(t, p);
        let q = pieces(t, p);
        let all = pieces(a, p);
        if forall|i: int| 0 <= i < a.len() ==> !p(#[trigger] a[i]) {
            assert(!p(a[a.len() - 1]));
            assert forall|i: int| 0 <= i < t.len() implies !p(#[trigger] t[i]) by {
                assert(t[i] == a[i]);
            }
            assert(t.push(a.last()) =~= a);
            assert(all =~= seq![a]);
        }
        assert forall|i: int, j: int| 0 <= i < all.len() && 0 <= j < all[i].len() implies !p(
            #[trigger] all[i][j],
        ) by {
            if i < q.len() - 1 {
                assert(all[i] == q[i]);
                assert(!p(q[i][j]));
            } else if !p(a.last()) && j < q[i].len() {
                assert(!p(q[i][j]));
                assert(all[i][j] == q[i][j]);
            } else if p(a.last()) && i < q.len() {
                assert(!p(q[i][j]));
            }
        }
    }
}

/// Joined texts stand one after the other with the separator between them, and only there.
pub proof fn law_joining_puts_separators_between(
    a: Seq<Seq<char>>,
    b: Seq<Seq<char>>,
    one: Seq<char>,
    sep: Seq<char>,
)
    ensures
        join_view(Seq::empty(), sep).len() == 0,
        join_view(seq![one], sep) == one,
        a.len() > 0 && b.len() > 0 ==> join_view(a + b, sep) == join_view(a, sep) + sep + join_view(
            b,
            sep,
        ),
    decreases b.len(),
{
    if a.len() > 0 && b.len() > 0 {
        assert((a + b).drop_last() =~= a + b.drop_last());
        if b.len() == 1 {
            assert(a + b.drop_last() =~= a);
            assert(join_view(a + b, sep) =~= join_view(a, sep) + sep + join_view(b, sep));
        } else {
            law_joining_puts_separators_between(a, b.drop_last(), one, sep);
            assert(join_view(a + b, sep) =~= join_view(a, sep) + sep + join_view(b, sep));
        }
    }
}

/// A text splits at the first of its separators into what makes it up again, and not at all
/// without one.
pub proof fn law_splitting_once_is_at_the_first(s: Seq<char>, c: char)
    ensures
        split_once_view(s, c) is None <==> !s.contains(c),
        split_once_view(s, c) matches Some((a, b)) ==> s == a.push(c) + b && !a.contains(c),
{
    if s.contains(c) {
        lemma_first_index_is(s, c);
        let i = first_index(s, c)->0;
        let (a, b) = split_once_view(s, c)->0;
        assert(s =~= a.push(c) + b);
        if a.contains(c) {
            let j = choose|j: int| 0 <= j < a.len() && a[j] == c;
            assert(s[j] == c);
        }
    }
}

/// A text is found where it stands first, and not at all if it stands nowhere.
pub proof fn law_the_first_place_is_found(s: Seq<char>, p: Seq<char>, from: int)
    requires
        0 <= from,
    ensures
        match occurrence_from(s, p, from) {
            Some(i) => from <= i && i + p.len() <= s.len() && s.subrange(i, i + p.len()) == p
                && forall|j: int|
                from <= j < i ==> #[trigger] s.subrange(j, j + p.len()) != p,
            None => forall|j: int|
                from <= j && j + p.len() <= s.len() ==> #[trigger] s.subrange(j, j + p.len()) != p,
        },
    decreases s.len() + 1 - from,
{
    if from + p.len() <= s.len() && !occurs_at(s, p, from) {
        law_the_first_place_is_found(s, p, from + 1);
    }
}

/// The number that decimal digits stand for.
pub open spec fn number(s: Seq<char>) -> int
    decreases s.len(),
{
    if s.len() == 0 {
        0
    } else {
        10 * number(s.drop_last()) + (s.last() as int - '0' as int)
    }
}

/// A number in decimal stands for itself, is made of digits only, and has no needless zero before
/// it.
pub proof fn law_decimals_stand_for_their_number(n: nat)
    ensures
        number(decimal_view(n)) == n,
        decimal_view(n).len() > 0,
        forall|i: int|
            0 <= i < decimal_view(n).len() ==> '0' <= #[trigger] decimal_view(n)[i] <= '9',
        n > 0 ==> decimal_view(n)[0] != '0',
    decreases n,
{
    reveal_with_fuel(number, 2);
    let s = decimal_view(n);
    if n < 10 {
        assert(s.drop_last() =~= Seq::empty());
        assert(digit(n) as int == 48 + n);
    } else {
        let t = decimal_view(n / 10);
        law_decimals_stand_for_their_number(n / 10);
        assert(s.drop_last() =~= t);
        assert(digit(n % 10) as int == 48 + n % 10);
        assert forall|i: int| 0 <= i < s.len() implies '0' <= #[trigger] s[i] <= '9' by {
            if i < s.len() - 1 {
                assert(t[i] == s[i]);
            }
        }
        assert(s[0] == t[0]);
    }
}

/// Capital ASCII letters are made the small ones 32 places on; every other character stays.
pub proof fn law_lowering_changes_capitals_only(c: char)
    ensures
        'A' <= c <= 'Z' ==> lower_char(c) as int == c as int + 32,
        !('A' <= c <= 'Z') ==> lower_char(c) == c,
        lower_char(lower_char(c)) == lower_char(c),
{
}

/// Texts are ordered by the first characters in which they differ, and a beginning comes before
/// the whole.
pub proof fn law_texts_are_ordered_by_the_first_difference(a: Seq<char>, b: Seq<char>, n: int)
    requires
        0 <= n <= a.len(),
        n < b.len(),
        forall|i: int| 0 <= i < n ==> #[trigger] a[i] == b[i],
    ensures
        n == a.len() ==> str_lt(a, b),
        n < a.len() && a[n] != b[n] ==> (str_lt(a, b) <==> (a[n] as int) < (b[n] as int)),
    decreases n,
{
    if n > 0 {
        let x = a.drop_first();
        let y = b.drop_first();
        assert(a[0] == b[0]);
        assert forall|i: int| 0 <= i < n - 1 implies #[trigger] x[i] == y[i] by {
            assert(a[i + 1] == b[i + 1]);
        }
        law_texts_are_ordered_by_the_first_difference(x, y, n - 1);
    }
}

/// Filling up to a width gives at least that width, adds nothing but blanks, behind the text or
/// before it, and nothing at all where the text is that wide.
pub proof fn law_filling_adds_blanks_only(s: Seq<char>, w: nat)
    ensures
        padded(s, w).len() == if s.len() < w {
            w
        } else {
            s.len()
        },
        padded(s, w).take(s.len() as int) == s,
        forall|i: int| s.len() <= i < padded(s, w).len() ==> #[trigger] padded(s, w)[i] == ' ',
        right_aligned(s, w).len() == padded(s, w).len(),
        right_aligned(s, w).skip(right_aligned(s, w).len() - s.len()) == s,
        forall|i: int|
            0 <= i < right_aligned(s, w).len() - s.len() ==> #[trigger] right_aligned(s, w)[i]
                == ' ',
{
    assert(padded(s, w).take(s.len() as int) =~= s);
    assert(right_aligned(s, w).skip(right_aligned(s, w).len() - s.len()) =~= s);
}

/// A text begins with what it is put behind, and ends with what is put behind it; one that begins
/// or ends with another holds it in that place.
pub proof fn law_beginnings_and_ends(s: Seq<char>, t: Seq<char>)
    ensures
        has_prefix(s + t, s),
        has_suffix(s + t, t),
        has_prefix(s, t) ==> s == t + s.skip(t.len() as int),
        has_suffix(s, t) ==> s == s.take(s.len() - t.len()) + t,
{
    assert((s + t).take(s.len() as int) =~= s);
    assert((s + t).skip(s.len() as int) =~= t);
    if has_prefix(s, t) {
        assert(s =~= s.take(t.len() as int) + s.skip(t.len() as int));
    }
    if has_suffix(s, t) {
        assert(s =~= s.take(s.len() - t.len()) + s.skip(s.len() - t.len()));
    }
}

/// A capped text is a beginning of the text within the limit, and the whole text where that is
/// within the limit.
pub proof fn law_capping_keeps_what_fits(r: Seq<char>, s: Seq<char>, cap: nat)
    requires
        is_capped(r, s, cap),
    ensures
        has_prefix(s, r),
        byte_len_view(r) <= cap,
        byte_len_view(s) <= cap ==> r == s,
        r != s ==> byte_len_view(r) + 4 > cap,
{
    if r.len() < s.len() {
        let n = r.len() as int;
        assert(s.take(n + 1) =~= r.push(s[n]));
        lemma_byte_len_push(r, s[n]);
        lemma_byte_len_take(s, n + 1);
    } else {
        assert(s.take(s.len() as int) =~= s);
    }
}

proof fn lemma_byte_len_take(s: Seq<char>, n: int)
    requires
        0 <= n <= s.len(),
    ensures
        byte_len_view(s.take(n)) <= byte_len_view(s),
    decreases s.len() - n,
{
    if n < s.len() {
        lemma_byte_len_push(s.take(n), s[n]);
        assert(s.take(n + 1) =~= s.take(n).push(s[n]));
        lemma_byte_len_take(s, n + 1);
    } else {
        assert(s.take(n) =~= s);
    }
}

/// A text within the limit is its own capped text, and the only one.
pub proof fn law_texts_within_the_limit_are_kept(s: Seq<char>, cap: nat)
    requires
        byte_len_view(s) <= cap,
    ensures
        is_capped(s, s, cap),
        forall|r: Seq<char>| #[trigger] is_capped(r, s, cap) ==> r == s,
{
    assert(s.take(s.len() as int) =~= s);
    assert forall|r: Seq<char>| #[trigger] is_capped(r, s, cap) implies r == s by {
        law_capping_keeps_what_fits(r, s, cap);
    }
}

} // verus!
