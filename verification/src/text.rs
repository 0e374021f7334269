//! Character-level string helpers shared by the parsers and renderers.

use vstd::prelude::*;
use vstd::utf8::{encode_scalar, encode_utf8};

verus! {

/// Appends one character to a string (`String::push`).
///
/// Trusted: the standard library documents that `push` appends the given
/// `char` to the end of the string.
#[verifier::external_body]
pub(crate) fn push_char(s: &mut String, c: char)
    ensures
        final(s)@ == old(s)@.push(c),
{
    s.push(c);
}

/// `p` is a prefix of `s`.
pub open spec fn has_prefix(s: Seq<char>, p: Seq<char>) -> bool {
    p.len() <= s.len() && s.subrange(0, p.len() as int) == p
}

/// `p` is a suffix of `s`.
pub open spec fn has_suffix(s: Seq<char>, p: Seq<char>) -> bool {
    p.len() <= s.len() && s.subrange(s.len() - p.len(), s.len() as int) == p
}

/// `p` occurs in `s` starting at index `i`.
pub open spec fn occurs_at(s: Seq<char>, p: Seq<char>, i: int) -> bool {
    0 <= i && i + p.len() <= s.len() && s.subrange(i, i + p.len()) == p
}

/// `c` occurs somewhere in `s`.
pub open spec fn has_char(s: Seq<char>, c: char) -> bool {
    exists|i: int| 0 <= i < s.len() && s[i] == c
}

/// The characters of a string slice, in order.
pub fn chars_of(s: &str) -> (v: Vec<char>)
    ensures
        v@ == s@,
{
    let mut v: Vec<char> = Vec::new();
    for c in it: s.chars()
        invariant
            v@ == it.seq().take(it.index() as int),
    {
        v.push(c);
    }
    v
}

/// A string holding the characters `v[from..to]`.
pub fn string_from_range(v: &Vec<char>, from: usize, to: usize) -> (s: String)
    requires
        from <= to <= v@.len(),
    ensures
        s@ == v@.subrange(from as int, to as int),
{
    let mut s = String::new();
    let mut i = from;
    while i < to
        invariant
            from <= i <= to <= v@.len(),
            s@ == v@.subrange(from as int, i as int),
        decreases to - i,
    {
        push_char(&mut s, v[i]);
        i = i + 1;
    }
    s
}

/// A string holding the characters of `v`.
pub fn string_from_chars(v: &Vec<char>) -> (s: String)
    ensures
        s@ == v@,
{
    string_from_range(v, 0, v.len())
}

/// Appends the characters of `v` to `s`.
pub fn push_chars(s: &mut String, v: &Vec<char>)
    ensures
        final(s)@ == old(s)@ + v@,
{
    let mut i: usize = 0;
    while i < v.len()
        invariant
            i <= v@.len(),
            s@ == old(s)@ + v@.subrange(0, i as int),
        decreases v@.len() - i,
    {
        push_char(s, v[i]);
        i = i + 1;
    }
}

/// Appends the characters `v[from..to]` to `s`.
pub fn push_range(s: &mut String, v: &Vec<char>, from: usize, to: usize)
    requires
        from <= to <= v@.len(),
    ensures
        final(s)@ == old(s)@ + v@.subrange(from as int, to as int),
{
    let mut i = from;
    while i < to
        invariant
            from <= i <= to <= v@.len(),
            s@ == old(s)@ + v@.subrange(from as int, i as int),
        decreases to - i,
    {
        push_char(s, v[i]);
        proof {
            assert(v@.subrange(from as int, i + 1) =~= v@.subrange(from as int, i as int).push(v@[i as int]));
        }
        i = i + 1;
    }
}

/// Whether `p` occurs in `s` starting at index `i`.
pub fn chars_occur_at(s: &Vec<char>, p: &Vec<char>, i: usize) -> (r: bool)
    ensures
        r == occurs_at(s@, p@, i as int),
{
    if i > s.len() || p.len() > s.len() - i {
        return false;
    }
    let mut k: usize = 0;
    while k < p.len()
        invariant
            i + p@.len() <= s.len(),
            k <= p@.len(),
            forall|j: int| 0 <= j < k ==> s@[i + j] == p@[j],
        decreases p@.len() - k,
    {
        if s[i + k] != p[k] {
            assert(s@.subrange(i as int, i + p@.len())[k as int] != p@[k as int]);
            return false;
        }
        k = k + 1;
    }
    assert(s@.subrange(i as int, i + p@.len()) =~= p@);
    true
}

/// Whether `p` is a prefix of `s`.
pub fn chars_start_with(s: &Vec<char>, p: &Vec<char>) -> (r: bool)
    ensures
        r == has_prefix(s@, p@),
{
    chars_occur_at(s, p, 0)
}

/// Whether `p` is a suffix of `s`.
pub fn chars_end_with(s: &Vec<char>, p: &Vec<char>) -> (r: bool)
    ensures
        r == has_suffix(s@, p@),
{
    if p.len() > s.len() {
        return false;
    }
    chars_occur_at(s, p, s.len() - p.len())
}

/// Whether the two character sequences are equal.
pub fn chars_equal(a: &Vec<char>, b: &Vec<char>) -> (r: bool)
    ensures
        r == (a@ == b@),
{
    if a.len() != b.len() {
        return false;
    }
    assert(a@ =~= a@.subrange(0, b@.len() as int));
    chars_occur_at(a, b, 0)
}

/// Whether the string slices `a` and `b` hold the same characters.
pub fn str_equal(a: &str, b: &str) -> (r: bool)
    ensures
        r == (a@ == b@),
{
    let av = chars_of(a);
    let bv = chars_of(b);
    chars_equal(&av, &bv)
}

/// Whether the character `c` occurs in `s`.
pub fn chars_contain(s: &Vec<char>, c: char) -> (r: bool)
    ensures
        r == has_char(s@, c),
{
    let mut i: usize = 0;
    while i < s.len()
        invariant
            i <= s@.len(),
            forall|j: int| 0 <= j < i ==> s@[j] != c,
        decreases s@.len() - i,
    {
        if s[i] == c {
            return true;
        }
        i = i + 1;
    }
    false
}

} // verus!

verus! {

/// A new vector holding `v[from..to]`.
pub fn chars_range(v: &Vec<char>, from: usize, to: usize) -> (r: Vec<char>)
    requires
        from <= to <= v@.len(),
    ensures
        r@ == v@.subrange(from as int, to as int),
{
    let mut r: Vec<char> = Vec::new();
    let mut i = from;
    while i < to
        invariant
            from <= i <= to <= v@.len(),
            r@ == v@.subrange(from as int, i as int),
        decreases to - i,
    {
        r.push(v[i]);
        i = i + 1;
    }
    r
}

/// Index just past the last `/` of `s`, or 0 when `s` holds none.
pub open spec fn segment_start(s: Seq<char>) -> int
    decreases s.len(),
{
    if s.len() == 0 {
        0
    } else if s.last() == '/' {
        s.len() as int
    } else {
        segment_start(s.drop_last())
    }
}

/// The last component of a `/`-separated path, as `std::path::Path::file_name`
/// computes it: empty and `.` components are skipped, and a final `..` (or no
/// component at all) gives `None`.
pub open spec fn path_file_name(s: Seq<char>) -> Option<Seq<char>>
    decreases s.len(),
{
    if s.len() == 0 {
        None
    } else if s.last() == '/' {
        path_file_name(s.drop_last())
    } else {
        let start = segment_start(s);
        let seg = s.subrange(start, s.len() as int);
        if seg == seq!['.'] {
            if start <= 0 || start >= s.len() {
                None
            } else {
                path_file_name(s.subrange(0, start))
            }
        } else if seg == seq!['.', '.'] {
            None
        } else {
            Some(seg)
        }
    }
}

/// After a `/`, a segment without `/` starts just past that `/`.
proof fn lemma_segment_start_after_slash(dir: Seq<char>, f: Seq<char>)
    requires
        forall|i: int| 0 <= i < f.len() ==> f[i] != '/',
    ensures
        segment_start(dir + seq!['/'] + f) == dir.len() + 1,
    decreases f.len(),
{
    let s = dir + seq!['/'] + f;
    if f.len() == 0 {
        assert(s =~= dir.push('/'));
    } else {
        assert(s.last() == f.last());
        assert(s.drop_last() =~= dir + seq!['/'] + f.drop_last());
        lemma_segment_start_after_slash(dir, f.drop_last());
    }
}

/// The file name of `<dir>/<f>`, for a name `f` without `/` that is neither
/// empty, `.` nor `..`, is `f`.
pub proof fn lemma_file_name_after_slash(dir: Seq<char>, f: Seq<char>)
    requires
        f.len() > 2,
        forall|i: int| 0 <= i < f.len() ==> f[i] != '/',
    ensures
        path_file_name(dir + seq!['/'] + f) == Some(f),
{
    let s = dir + seq!['/'] + f;
    lemma_segment_start_after_slash(dir, f);
    assert(s.last() == f.last());
    assert(s.subrange(dir.len() + 1 as int, s.len() as int) =~= f);
}

proof fn lemma_segment_start_bounds(s: Seq<char>)
    ensures
        0 <= segment_start(s) <= s.len(),
        s.len() > 0 && s.last() != '/' ==> segment_start(s) < s.len(),
    decreases s.len(),
{
    if s.len() > 0 && s.last() != '/' {
        lemma_segment_start_bounds(s.drop_last());
    }
}

/// The last component of the path `v` (see `path_file_name`).
pub fn file_name_of(v: &Vec<char>) -> (r: Option<Vec<char>>)
    ensures
        r is None <==> path_file_name(v@) is None,
        r matches Some(f) ==> path_file_name(v@) == Some(f@),
{
    let mut end = v.len();
    assert(v@.take(end as int) =~= v@);
    loop
        invariant
            end <= v@.len(),
            path_file_name(v@) == path_file_name(v@.take(end as int)),
        decreases end,
    {
        if end == 0 {
            return None;
        }
        let ghost cur = v@.take(end as int);
        if v[end - 1] == '/' {
            assert(cur.drop_last() =~= v@.take(end - 1));
            end = end - 1;
            continue;
        }
        let mut start = end;
        while start > 0 && v[start - 1] != '/'
            invariant
                start <= end <= v@.len(),
                end > 0,
                v@[end - 1] != '/',
                segment_start(v@.take(end as int)) == segment_start(v@.take(start as int)) || (
                start == end),
                start < end ==> segment_start(v@.take(end as int)) == segment_start(
                    v@.take(start as int),
                ),
            decreases start,
        {
            assert(v@.take(start as int).drop_last() =~= v@.take(start - 1));
            if start == end {
                assert(segment_start(v@.take(end as int)) == segment_start(v@.take(start - 1)));
            }
            start = start - 1;
        }
        proof {
            if start == end {
                assert(v@.take(end as int).drop_last() =~= v@.take(end - 1));
                assert(false);
            }
            assert(segment_start(v@.take(start as int)) == start);
            lemma_segment_start_bounds(cur);
            assert(cur.subrange(start as int, end as int) =~= v@.subrange(start as int, end as int));
        }
        let seg_len = end - start;
        let is_dot = seg_len == 1 && v[start] == '.';
        let is_dot_dot = seg_len == 2 && v[start] == '.' && v[start + 1] == '.';
        proof {
            let seg = v@.subrange(start as int, end as int);
            if is_dot {
                assert(seg =~= seq!['.']);
            } else {
                assert(seg != seq!['.']) by {
                    if seg.len() == 1 {
                        assert(seg[0] == v@[start as int]);
                    }
                }
            }
            if is_dot_dot {
                assert(seg =~= seq!['.', '.']);
            } else {
                assert(seg != seq!['.', '.']) by {
                    if seg.len() == 2 {
                        assert(seg[0] == v@[start as int]);
                        assert(seg[1] == v@[start + 1]);
                    }
                }
            }
        }
        if is_dot {
            if start == 0 {
                return None;
            }
            assert(cur.subrange(0, start as int) =~= v@.take(start as int));
            end = start;
            continue;
        }
        if is_dot_dot {
            return None;
        }
        return Some(chars_range(v, start, end));
    }
}

} // verus!

verus! {

/// `encode_utf8` distributes over concatenation.
pub proof fn lemma_encode_utf8_concat(a: Seq<char>, b: Seq<char>)
    ensures
        encode_utf8(a + b) == encode_utf8(a) + encode_utf8(b),
    decreases a.len(),
{
    if a.len() == 0 {
        assert(a + b =~= b);
        assert(encode_utf8(a) + encode_utf8(b) =~= encode_utf8(b));
    } else {
        assert((a + b).drop_first() =~= a.drop_first() + b);
        assert((a + b)[0] == a[0]);
        lemma_encode_utf8_concat(a.drop_first(), b);
        assert(encode_utf8(a + b) =~= encode_utf8(a) + encode_utf8(b));
    }
}

/// The number of bytes in the UTF-8 encoding of `c`.
pub open spec fn utf8_width(c: char) -> nat {
    encode_scalar(c as u32).len()
}

proof fn lemma_encode_utf8_single(c: char)
    ensures
        encode_utf8(seq![c]) == encode_scalar(c as u32),
{
    let e = Seq::<char>::empty();
    assert(seq![c].drop_first() =~= e);
    assert(encode_utf8(e) =~= Seq::<u8>::empty());
    assert(seq![c][0] == c);
    assert(encode_utf8(seq![c]) == encode_scalar(c as u32) + encode_utf8(e));
    assert(encode_utf8(seq![c]) =~= encode_scalar(c as u32));
}

/// The number of bytes in the UTF-8 encoding of `c`.
pub fn char_utf8_width(c: char) -> (r: usize)
    ensures
        r == utf8_width(c),
        1 <= r <= 4,
{
    let u = c as u32;
    if u < 0x80 {
        1
    } else if u < 0x800 {
        2
    } else if u < 0x10000 {
        3
    } else {
        4
    }
}

/// Whether the UTF-8 encoding of `v` is longer than `n` bytes.
pub fn utf8_len_exceeds(v: &Vec<char>, n: usize) -> (r: bool)
    ensures
        r == (encode_utf8(v@).len() > n),
{
    let mut total: usize = 0;
    let mut i: usize = 0;
    while i < v.len()
        invariant
            i <= v@.len(),
            total == encode_utf8(v@.take(i as int)).len(),
            total <= n,
        decreases v@.len() - i,
    {
        let c = v[i];
        let w = char_utf8_width(c);
        proof {
            assert(v@.take(i + 1) =~= v@.take(i as int) + seq![c]);
            lemma_encode_utf8_concat(v@.take(i as int), seq![c]);
            lemma_encode_utf8_single(c);
        }
        if w > n - total {
            proof {
                assert(v@ =~= v@.take(i + 1) + v@.skip(i + 1));
                lemma_encode_utf8_concat(v@.take(i + 1), v@.skip(i + 1));
            }
            return true;
        }
        total = total + w;
        i = i + 1;
    }
    assert(v@.take(i as int) =~= v@);
    false
}

} // verus!

verus! {

/// The character sequences of a list of strings.
pub open spec fn strings_view(v: Seq<String>) -> Seq<Seq<char>> {
    v.map_values(|s: String| s@)
}

/// Whether one of the strings in `v` equals `s`.
pub fn strings_contain(v: &Vec<String>, s: &str) -> (r: bool)
    ensures
        r == strings_view(v@).contains(s@),
{
    let mut i: usize = 0;
    while i < v.len()
        invariant
            i <= v@.len(),
            forall|j: int| 0 <= j < i ==> v@[j]@ != s@,
        decreases v@.len() - i,
    {
        if str_equal(v[i].as_str(), s) {
            assert(strings_view(v@)[i as int] == s@);
            return true;
        }
        i = i + 1;
    }
    proof {
        if strings_view(v@).contains(s@) {
            let j = choose|j: int| 0 <= j < strings_view(v@).len() && strings_view(v@)[j] == s@;
            assert(v@[j]@ == s@);
        }
    }
    false
}

} // verus!

verus! {

/// The first index at or after `start` where `p` occurs in `s`.
pub open spec fn find_from(s: Seq<char>, p: Seq<char>, start: int) -> Option<int>
    decreases s.len() - start,
{
    if start < 0 || start + p.len() > s.len() {
        None
    } else if occurs_at(s, p, start) {
        Some(start)
    } else if start >= s.len() {
        None
    } else {
        find_from(s, p, start + 1)
    }
}

/// The first index at or after `start` holding the character `c`.
pub open spec fn find_char_from(s: Seq<char>, c: char, start: int) -> Option<int>
    decreases s.len() - start,
{
    if start < 0 || start >= s.len() {
        None
    } else if s[start] == c {
        Some(start)
    } else {
        find_char_from(s, c, start + 1)
    }
}

/// The first occurrence of `p` in `s` at or after `start`.
pub fn chars_find(s: &Vec<char>, p: &Vec<char>, start: usize) -> (r: Option<usize>)
    ensures
        r matches Some(i) ==> find_from(s@, p@, start as int) == Some(i as int),
        r is None ==> find_from(s@, p@, start as int) is None,
{
    let mut i = start;
    while i <= s.len() && p.len() <= s.len() - i
        invariant
            start <= i,
            find_from(s@, p@, start as int) == find_from(s@, p@, i as int),
        decreases s@.len() + 1 - i,
    {
        if chars_occur_at(s, p, i) {
            return Some(i);
        }
        if i >= s.len() {
            return None;
        }
        i = i + 1;
    }
    None
}

/// The first index at or after `start` holding the character `c`.
pub fn chars_find_char(s: &Vec<char>, c: char, start: usize) -> (r: Option<usize>)
    ensures
        r matches Some(i) ==> find_char_from(s@, c, start as int) == Some(i as int),
        r is None ==> find_char_from(s@, c, start as int) is None,
{
    let mut i = start;
    while i < s.len()
        invariant
            start <= i,
            find_char_from(s@, c, start as int) == find_char_from(s@, c, i as int),
        decreases s@.len() - i,
    {
        if s[i] == c {
            return Some(i);
        }
        i = i + 1;
    }
    None
}

/// The Unicode `White_Space` property, which `char::is_whitespace` tests.
pub open spec fn spec_is_whitespace(c: char) -> bool {
    let u = c as u32;
    ||| 0x09 <= u <= 0x0D
    ||| u == 0x20
    ||| u == 0x85
    ||| u == 0xA0
    ||| u == 0x1680
    ||| 0x2000 <= u <= 0x200A
    ||| u == 0x2028
    ||| u == 0x2029
    ||| u == 0x202F
    ||| u == 0x205F
    ||| u == 0x3000
}

/// Whether `c` has the Unicode `White_Space` property.
pub fn is_whitespace(c: char) -> (r: bool)
    ensures
        r == spec_is_whitespace(c),
{
    let u = c as u32;
    (0x09 <= u && u <= 0x0D) || u == 0x20 || u == 0x85 || u == 0xA0 || u == 0x1680 || (0x2000 <= u
        && u <= 0x200A) || u == 0x2028 || u == 0x2029 || u == 0x202F || u == 0x205F || u == 0x3000
}

/// The number of leading whitespace characters of `s`.
pub open spec fn leading_ws(s: Seq<char>) -> int
    decreases s.len(),
{
    if s.len() > 0 && spec_is_whitespace(s[0]) {
        1 + leading_ws(s.drop_first())
    } else {
        0
    }
}

/// The number of trailing whitespace characters of `s`.
pub open spec fn trailing_ws(s: Seq<char>) -> int
    decreases s.len(),
{
    if s.len() > 0 && spec_is_whitespace(s.last()) {
        1 + trailing_ws(s.drop_last())
    } else {
        0
    }
}

/// `s` without leading and trailing whitespace (`str::trim`).
pub open spec fn spec_trim(s: Seq<char>) -> Seq<char> {
    let start = leading_ws(s);
    let rest = s.skip(start);
    rest.take(rest.len() - trailing_ws(rest))
}

proof fn lemma_leading_ws_bounds(s: Seq<char>)
    ensures
        0 <= leading_ws(s) <= s.len(),
    decreases s.len(),
{
    if s.len() > 0 && spec_is_whitespace(s[0]) {
        lemma_leading_ws_bounds(s.drop_first());
    }
}

proof fn lemma_trailing_ws_bounds(s: Seq<char>)
    ensures
        0 <= trailing_ws(s) <= s.len(),
    decreases s.len(),
{
    if s.len() > 0 && spec_is_whitespace(s.last()) {
        lemma_trailing_ws_bounds(s.drop_last());
    }
}

/// The characters of `v[from..to]` without leading and trailing whitespace.
pub fn chars_trim(v: &Vec<char>, from: usize, to: usize) -> (r: Vec<char>)
    requires
        from <= to <= v@.len(),
    ensures
        r@ == spec_trim(v@.subrange(from as int, to as int)),
{
    let ghost s = v@.subrange(from as int, to as int);
    let mut start = from;
    while start < to && is_whitespace(v[start])
        invariant
            from <= start <= to <= v@.len(),
            leading_ws(s) == (start - from) + leading_ws(v@.subrange(start as int, to as int)),
        decreases to - start,
    {
        assert(v@.subrange(start as int, to as int).drop_first() =~= v@.subrange(
            start + 1,
            to as int,
        ));
        start = start + 1;
    }
    proof {
        if start < to {
            assert(v@.subrange(start as int, to as int)[0] == v@[start as int]);
        }
        assert(s.skip(start - from) =~= v@.subrange(start as int, to as int));
    }
    let ghost rest = v@.subrange(start as int, to as int);
    let mut end = to;
    while end > start && is_whitespace(v[end - 1])
        invariant
            from <= start <= end <= to <= v@.len(),
            rest == v@.subrange(start as int, to as int),
            trailing_ws(rest) == (to - end) + trailing_ws(v@.subrange(start as int, end as int)),
        decreases end - start,
    {
        assert(v@.subrange(start as int, end as int).drop_last() =~= v@.subrange(
            start as int,
            end - 1,
        ));
        end = end - 1;
    }
    proof {
        if end > start {
            assert(v@.subrange(start as int, end as int).last() == v@[end - 1]);
        }
        assert(rest.take(rest.len() - trailing_ws(rest)) =~= v@.subrange(start as int, end as int));
    }
    chars_range(v, start, end)
}

/// `s` without leading and trailing whitespace (`str::trim`).
pub fn trim_str(s: &str) -> (r: String)
    ensures
        r@ == spec_trim(s@),
{
    let v = chars_of(s);
    assert(v@.subrange(0, v@.len() as int) =~= v@);
    let t = chars_trim(&v, 0, v.len());
    string_from_chars(&t)
}

/// Lexicographic order of character sequences by code point, which is the
/// order of `String` (UTF-8 preserves code point order).
pub open spec fn seq_lt(a: Seq<char>, b: Seq<char>) -> bool
    decreases a.len(),
{
    if a.len() == 0 {
        b.len() > 0
    } else if b.len() == 0 {
        false
    } else if a[0] != b[0] {
        (a[0] as u32) < (b[0] as u32)
    } else {
        seq_lt(a.drop_first(), b.drop_first())
    }
}

/// Whether `a` sorts strictly before `b`.
pub fn chars_less(a: &Vec<char>, b: &Vec<char>) -> (r: bool)
    ensures
        r == seq_lt(a@, b@),
{
    let mut i: usize = 0;
    assert(a@.skip(0) =~= a@);
    assert(b@.skip(0) =~= b@);
    while i < a.len() && i < b.len() && a[i] == b[i]
        invariant
            i <= a@.len(),
            i <= b@.len(),
            seq_lt(a@, b@) == seq_lt(a@.skip(i as int), b@.skip(i as int)),
        decreases a@.len() - i,
    {
        assert(a@.skip(i as int).drop_first() =~= a@.skip(i + 1));
        assert(b@.skip(i as int).drop_first() =~= b@.skip(i + 1));
        i = i + 1;
    }
    if i == a.len() {
        i < b.len()
    } else if i == b.len() {
        false
    } else {
        (a[i] as u32) < (b[i] as u32)
    }
}

/// Whether the string `a` sorts strictly before the string `b`.
pub fn str_less(a: &str, b: &str) -> (r: bool)
    ensures
        r == seq_lt(a@, b@),
{
    let av = chars_of(a);
    let bv = chars_of(b);
    chars_less(&av, &bv)
}

} // verus!

verus! {

/// The pieces of `s` between occurrences of `c` (`str::split`).
pub open spec fn split_on(s: Seq<char>, c: char) -> Seq<Seq<char>>
    decreases s.len(),
{
    match find_char_from(s, c, 0) {
        None => seq![s],
        Some(i) => if 0 <= i < s.len() {
            seq![s.take(i)] + split_on(s.skip(i + 1), c)
        } else {
            seq![s]
        },
    }
}

/// The lines of `s` (`str::lines`, before the `\r` of a `\r\n` is dropped):
/// the pieces between newlines, without a last empty piece.
pub open spec fn spec_lines(s: Seq<char>) -> Seq<Seq<char>> {
    let parts = split_on(s, '\n');
    if parts.last().len() == 0 {
        parts.drop_last()
    } else {
        parts
    }
}

pub proof fn lemma_find_char_from_bounds(s: Seq<char>, c: char, start: int)
    requires
        start >= 0,
    ensures
        find_char_from(s, c, start) matches Some(i) ==> start <= i < s.len() && s[i] == c,
        find_char_from(s, c, start) is None ==> forall|j: int|
            start <= j < s.len() && 0 <= j ==> s[j] != c,
    decreases s.len() - start,
{
    if start >= 0 && start < s.len() && s[start] != c {
        lemma_find_char_from_bounds(s, c, start + 1);
    }
}

proof fn lemma_find_char_from_shift(s: Seq<char>, c: char, start: int)
    requires
        0 <= start <= s.len(),
    ensures
        find_char_from(s, c, start) == (match find_char_from(s.skip(start), c, 0) {
            Some(i) => Some(i + start),
            None => None,
        }),
    decreases s.len() - start,
{
    lemma_find_char_from_bounds(s, c, start);
    lemma_find_char_from_bounds(s.skip(start), c, 0);
    if start < s.len() {
        if s[start] != c {
            lemma_find_char_from_shift(s, c, start + 1);
            lemma_find_char_from_shift(s.skip(start), c, 1);
            assert(s.skip(start).skip(1) =~= s.skip(start + 1));
            lemma_find_char_from_bounds(s.skip(start + 1), c, 0);
        }
    }
}

/// The pieces of `v[start..]` between occurrences of `c`.
pub fn chars_split(v: &Vec<char>, c: char, start: usize) -> (r: Vec<Vec<char>>)
    requires
        start <= v@.len(),
    ensures
        r@.map_values(|p: Vec<char>| p@) == split_on(v@.skip(start as int), c),
    decreases v@.len() - start,
{
    proof {
        lemma_find_char_from_shift(v@, c, start as int);
        lemma_find_char_from_bounds(v@, c, start as int);
    }
    match chars_find_char(v, c, start) {
        None => {
            let mut r: Vec<Vec<char>> = Vec::new();
            r.push(chars_range(v, start, v.len()));
            proof {
                assert(v@.subrange(start as int, v@.len() as int) =~= v@.skip(start as int));
                assert(r@.map_values(|p: Vec<char>| p@) =~= seq![v@.skip(start as int)]);
            }
            r
        },
        Some(i) => {
            proof {
                lemma_find_char_from_bounds(v@, c, start as int);
                assert(find_char_from(v@, c, start as int) == Some(i as int));
                assert(start <= i < v@.len());
            }
            let n = v.len();
            assert(i < n);
            let piece = chars_range(v, start, i);
            let rest = chars_split(v, c, i + 1);
            let mut r: Vec<Vec<char>> = Vec::new();
            r.push(piece);
            let mut k: usize = 0;
            let ghost rest_view = rest@.map_values(|p: Vec<char>| p@);
            while k < rest.len()
                invariant
                    k <= rest@.len(),
                    rest_view == rest@.map_values(|p: Vec<char>| p@),
                    r@.len() == k + 1,
                    r@[0]@ == v@.subrange(start as int, i as int),
                    forall|j: int| 0 <= j < k ==> r@[j + 1]@ == rest_view[j],
                decreases rest@.len() - k,
            {
                r.push(chars_range(&rest[k], 0, rest[k].len()));
                proof {
                    assert(rest[k as int]@.subrange(0, rest[k as int]@.len() as int) =~= rest[k as int]@);
                }
                k = k + 1;
            }
            proof {
                let s = v@.skip(start as int);
                assert(s.take(i - start) =~= v@.subrange(start as int, i as int));
                assert(s.skip(i - start + 1) =~= v@.skip(i + 1));
                assert(r@.map_values(|p: Vec<char>| p@) =~= seq![s.take(i - start)] + split_on(
                    s.skip(i - start + 1),
                    c,
                ));
            }
            r
        },
    }
}

} // verus!

verus! {

/// What `find_char_from` finds is a `c` at or after `start`.
pub proof fn lemma_find_char_from_found(s: Seq<char>, c: char, start: int)
    ensures
        find_char_from(s, c, start) matches Some(i) ==> start <= i < s.len() && s[i] == c,
    decreases s.len() - start,
{
    if start >= 0 && start < s.len() && s[start] != c {
        lemma_find_char_from_found(s, c, start + 1);
    }
}

} // verus!

verus! {

/// `p` occurs somewhere in `s` (`str::contains` with a string pattern).
pub open spec fn seq_contains(s: Seq<char>, p: Seq<char>) -> bool {
    exists|i: int| occurs_at(s, p, i)
}

/// Text that occurs in `a` still occurs once something is appended to `a`.
pub proof fn lemma_contains_append(a: Seq<char>, b: Seq<char>, p: Seq<char>)
    requires
        seq_contains(a, p),
    ensures
        seq_contains(a + b, p),
{
    let i = choose|i: int| #[trigger] occurs_at(a, p, i);
    assert((a + b).subrange(i, i + p.len()) =~= a.subrange(i, i + p.len()));
    assert(occurs_at(a + b, p, i));
}

/// Text that occurs in a piece of `s` occurs in `s`.
pub proof fn lemma_contains_trans(s: Seq<char>, b: Seq<char>, p: Seq<char>)
    requires
        seq_contains(s, b),
        seq_contains(b, p),
    ensures
        seq_contains(s, p),
{
    let i = choose|i: int| #[trigger] occurs_at(s, b, i);
    let j = choose|j: int| #[trigger] occurs_at(b, p, j);
    assert(s.subrange(i + j, i + j + p.len()) =~= b.subrange(j, j + p.len()));
    assert(occurs_at(s, p, i + j));
}

/// `find_from` finds an occurrence exactly when there is one at or after `start`.
pub proof fn lemma_find_from_spec(s: Seq<char>, p: Seq<char>, start: int)
    requires
        start >= 0,
    ensures
        find_from(s, p, start) is None <==> forall|i: int| i >= start ==> !occurs_at(s, p, i),
        find_from(s, p, start) matches Some(i) ==> i >= start && occurs_at(s, p, i),
    decreases s.len() - start,
{
    if start + p.len() > s.len() {
    } else if occurs_at(s, p, start) {
    } else if start >= s.len() {
        assert forall|i: int| i >= start implies !occurs_at(s, p, i) by {
            if i > start {
            }
        }
    } else {
        lemma_find_from_spec(s, p, start + 1);
    }
}

/// Whether `p` occurs in `s`.
pub fn str_contains(s: &str, p: &str) -> (r: bool)
    ensures
        r == seq_contains(s@, p@),
{
    let sv = chars_of(s);
    let pv = chars_of(p);
    proof {
        lemma_find_from_spec(s@, p@, 0);
        if seq_contains(s@, p@) {
            let i = choose|i: int| occurs_at(s@, p@, i);
            assert(i >= 0);
        }
    }
    chars_find(&sv, &pv, 0).is_some()
}

} // verus!

verus! {

/// The decimal digit for `d` (below ten).
pub open spec fn digit_char(d: nat) -> char {
    if d == 0 {
        '0'
    } else if d == 1 {
        '1'
    } else if d == 2 {
        '2'
    } else if d == 3 {
        '3'
    } else if d == 4 {
        '4'
    } else if d == 5 {
        '5'
    } else if d == 6 {
        '6'
    } else if d == 7 {
        '7'
    } else if d == 8 {
        '8'
    } else {
        '9'
    }
}

/// The decimal representation of `n`, without leading zeros.
pub open spec fn decimal(n: nat) -> Seq<char>
    decreases n,
{
    if n < 10 {
        seq![digit_char(n)]
    } else {
        decimal(n / 10) + seq![digit_char(n % 10)]
    }
}

/// Different numbers have different decimal representations.
pub proof fn lemma_decimal_injective(a: nat, b: nat)
    requires
        decimal(a) == decimal(b),
    ensures
        a == b,
    decreases a,
{
    lemma_decimal_len(a);
    lemma_decimal_len(b);
    if a < 10 && b < 10 {
        assert(decimal(a)[0] == digit_char(a));
        assert(decimal(b)[0] == digit_char(b));
    } else if a >= 10 && b >= 10 {
        let da = decimal(a);
        assert(da.last() == digit_char(a % 10));
        assert(decimal(b).last() == digit_char(b % 10));
        assert(a % 10 == b % 10);
        assert(da.drop_last() =~= decimal(a / 10));
        assert(decimal(b).drop_last() =~= decimal(b / 10));
        lemma_decimal_injective(a / 10, b / 10);
    } else if a < 10 {
        lemma_decimal_len(b / 10);
        assert(decimal(b).len() >= 2);
    } else {
        lemma_decimal_len(a / 10);
        assert(decimal(a).len() >= 2);
    }
}

/// A decimal representation has at least one digit.
pub proof fn lemma_decimal_len(n: nat)
    ensures
        decimal(n).len() >= 1,
    decreases n,
{
    if n >= 10 {
        lemma_decimal_len(n / 10);
    }
}

fn digit(d: usize) -> (c: char)
    requires
        d < 10,
    ensures
        c == digit_char(d as nat),
{
    if d == 0 {
        '0'
    } else if d == 1 {
        '1'
    } else if d == 2 {
        '2'
    } else if d == 3 {
        '3'
    } else if d == 4 {
        '4'
    } else if d == 5 {
        '5'
    } else if d == 6 {
        '6'
    } else if d == 7 {
        '7'
    } else if d == 8 {
        '8'
    } else {
        '9'
    }
}

/// The decimal representation of `n` (as `format!("{n}")` writes it).
pub fn decimal_string(n: usize) -> (r: String)
    ensures
        r@ == decimal(n as nat),
    decreases n,
{
    if n < 10 {
        let mut r = String::new();
        push_char(&mut r, digit(n));
        assert(r@ =~= seq![digit_char(n as nat)]);
        r
    } else {
        let mut r = decimal_string(n / 10);
        push_char(&mut r, digit(n % 10));
        r
    }
}

} // verus!

verus! {

/// `s` without its trailing `c` characters (`str::trim_end_matches` with a char).
pub open spec fn trim_end_char(s: Seq<char>, c: char) -> Seq<char>
    decreases s.len(),
{
    if s.len() > 0 && s.last() == c {
        trim_end_char(s.drop_last(), c)
    } else {
        s
    }
}

/// The part of `s` before the first `c`, or all of `s` (the first half of
/// `str::split_once`, or the whole string when it has no `c`).
pub open spec fn before_char(s: Seq<char>, c: char) -> Seq<char> {
    match find_char_from(s, c, 0) {
        Some(i) => s.take(i),
        None => s,
    }
}

/// `s` without its trailing `c` characters.
pub fn chars_trim_end(v: &Vec<char>, c: char) -> (r: Vec<char>)
    ensures
        r@ == trim_end_char(v@, c),
{
    let mut end = v.len();
    assert(v@.take(end as int) =~= v@);
    while end > 0 && v[end - 1] == c
        invariant
            end <= v@.len(),
            trim_end_char(v@, c) == trim_end_char(v@.take(end as int), c),
        decreases end,
    {
        assert(v@.take(end as int).drop_last() =~= v@.take(end - 1));
        end = end - 1;
    }
    proof {
        if end > 0 {
            assert(v@.take(end as int).last() == v@[end - 1]);
        }
    }
    assert(v@.subrange(0, end as int) =~= v@.take(end as int));
    chars_range(v, 0, end)
}

/// The part of `v` before the first `c`, or all of `v`.
pub fn chars_before(v: &Vec<char>, c: char) -> (r: Vec<char>)
    ensures
        r@ == before_char(v@, c),
{
    proof {
        lemma_find_char_from_found(v@, c, 0);
    }
    match chars_find_char(v, c, 0) {
        Some(i) => {
            assert(v@.subrange(0, i as int) =~= v@.take(i as int));
            chars_range(v, 0, i)
        },
        None => {
            assert(v@.subrange(0, v@.len() as int) =~= v@);
            chars_range(v, 0, v.len())
        },
    }
}

} // verus!
