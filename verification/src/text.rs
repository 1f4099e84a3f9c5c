//! Character-level text helpers: whitespace, trimming, line splitting,
//! truncation, joining and decimal rendering, each with its specification.
use vstd::prelude::*;
use vstd::std_specs::iter::IteratorSpec;

verus! {

broadcast use vstd::string::group_string_axioms;

/// The Unicode `White_Space` property, which `char::is_whitespace` tests.
pub open spec fn is_ws(c: char) -> bool {
    let v = c as u32;
    ||| 0x09 <= v <= 0x0d
    ||| v == 0x20
    ||| v == 0x85
    ||| v == 0xa0
    ||| v == 0x1680
    ||| 0x2000 <= v <= 0x200a
    ||| v == 0x2028
    ||| v == 0x2029
    ||| v == 0x202f
    ||| v == 0x205f
    ||| v == 0x3000
}

/// Tests whether `c` is Unicode white space.
pub fn is_whitespace(c: char) -> (b: bool)
    ensures
        b == is_ws(c),
{
    let v = c as u32;
    (0x09 <= v && v <= 0x0d) || v == 0x20 || v == 0x85 || v == 0xa0 || v == 0x1680 || (0x2000
        <= v && v <= 0x200a) || v == 0x2028 || v == 0x2029 || v == 0x202f || v == 0x205f || v
        == 0x3000
}

/// The characters of a string slice, in order.
pub fn chars_of(s: &str) -> (v: Vec<char>)
    ensures
        v@ == s@,
{
    let mut v: Vec<char> = Vec::new();
    for c in it: s.chars()
        invariant
            v@ == it.seq().take(it.index() as int),
    {
        v.push(c);
    }
    v
}

/// Appends `c` with `String::push`; trusted to leave the string's
/// characters followed by `c`, as its documentation says.
#[verifier::external_body]
fn push_char(s: &mut String, c: char)
    ensures
        final(s)@ == old(s)@.push(c),
{
    s.push(c);
}

/// A `String` holding exactly the given characters.
pub fn string_of(v: &[char]) -> (s: String)
    ensures
        s@ == v@,
{
    let mut s = String::new();
    let mut i: usize = 0;
    while i < v.len()
        invariant
            0 <= i <= v.len(),
            s@ == v@.take(i as int),
        decreases v.len() - i,
    {
        push_char(&mut s, v[i]);
        assert(v@.take(i + 1) == v@.take(i as int).push(v@[i as int]));
        i = i + 1;
    }
    assert(v@.take(v.len() as int) == v@);
    s
}


/// The sequence with leading white space removed (`str::trim_start`).
pub open spec fn trim_start(s: Seq<char>) -> Seq<char>
    decreases s.len(),
{
    if s.len() > 0 && is_ws(s[0]) {
        trim_start(s.drop_first())
    } else {
        s
    }
}

/// The sequence with trailing white space removed (`str::trim_end`).
pub open spec fn trim_end(s: Seq<char>) -> Seq<char>
    decreases s.len(),
{
    if s.len() > 0 && is_ws(s.last()) {
        trim_end(s.drop_last())
    } else {
        s
    }
}

/// The sequence with white space removed at both ends (`str::trim`).
pub open spec fn trim(s: Seq<char>) -> Seq<char> {
    trim_end(trim_start(s))
}

/// Bounds `(a, b)` such that `v[a..b]` is `v[lo..hi]` trimmed.
pub fn trim_bounds(v: &[char], lo: usize, hi: usize) -> (r: (usize, usize))
    requires
        lo <= hi <= v@.len(),
    ensures
        lo <= r.0 <= r.1 <= hi,
        v@.subrange(r.0 as int, r.1 as int) == trim(v@.subrange(lo as int, hi as int)),
{
    let mut i = lo;
    while i < hi && is_whitespace(v[i])
        invariant
            lo <= i <= hi <= v@.len(),
            trim_start(v@.subrange(lo as int, hi as int)) == trim_start(
                v@.subrange(i as int, hi as int),
            ),
        decreases hi - i,
    {
        assert(v@.subrange(i as int, hi as int).drop_first() == v@.subrange(i + 1, hi as int));
        i = i + 1;
    }
    let mut j = hi;
    while j > i && is_whitespace(v[j - 1])
        invariant
            lo <= i <= j <= hi <= v@.len(),
            trim_end(v@.subrange(i as int, hi as int)) == trim_end(
                v@.subrange(i as int, j as int),
            ),
            i == hi || !is_ws(v@[i as int]),
        decreases j - i,
    {
        assert(v@.subrange(i as int, j as int).drop_last() == v@.subrange(i as int, j - 1));
        j = j - 1;
    }
    (i, j)
}

/// A copy of `v[lo..hi]`.
pub fn slice_to_vec(v: &[char], lo: usize, hi: usize) -> (r: Vec<char>)
    requires
        lo <= hi <= v@.len(),
    ensures
        r@ == v@.subrange(lo as int, hi as int),
{
    let mut r: Vec<char> = Vec::new();
    let mut i = lo;
    while i < hi
        invariant
            lo <= i <= hi <= v@.len(),
            r@ == v@.subrange(lo as int, i as int),
        decreases hi - i,
    {
        r.push(v[i]);
        assert(v@.subrange(lo as int, i + 1) == v@.subrange(lo as int, i as int).push(v@[i as int]));
        i = i + 1;
    }
    r
}

/// `v` trimmed of white space at both ends.
pub fn trimmed(v: &[char]) -> (r: Vec<char>)
    ensures
        r@ == trim(v@),
{
    let (a, b) = trim_bounds(v, 0, v.len());
    assert(v@.subrange(0, v@.len() as int) == v@);
    slice_to_vec(v, a, b)
}


/// The number of characters before the first `'\n'` (all of them if none).
pub open spec fn line_len(s: Seq<char>) -> nat
    decreases s.len(),
{
    if s.len() == 0 || s[0] == '\n' {
        0
    } else {
        1 + line_len(s.drop_first())
    }
}

/// `l` without one trailing carriage return.
pub open spec fn strip_cr(l: Seq<char>) -> Seq<char> {
    if l.len() > 0 && l.last() == '\r' {
        l.drop_last()
    } else {
        l
    }
}

/// The lines of `s` as `str::lines` yields them: split at `'\n'`, a `'\r'`
/// right before a `'\n'` dropped, and no empty line after a final `'\n'`.
pub open spec fn lines(s: Seq<char>) -> Seq<Seq<char>>
    decreases s.len(),
{
    if s.len() == 0 {
        seq![]
    } else {
        let k = line_len(s);
        if k < s.len() {
            seq![strip_cr(s.take(k as int))] + lines(s.skip((k + 1) as int))
        } else {
            seq![s]
        }
    }
}

/// The first line of a non-empty `s` (`s.lines().next()`).
pub open spec fn first_line(s: Seq<char>) -> Seq<char> {
    let k = line_len(s);
    if k < s.len() {
        strip_cr(s.take(k as int))
    } else {
        s
    }
}

/// The index of the first `'\n'` at or after `pos` (or the length).
pub fn line_end(v: &[char], pos: usize) -> (r: usize)
    requires
        pos <= v@.len(),
    ensures
        r == pos + line_len(v@.skip(pos as int)),
        r <= v@.len(),
        r < v@.len() ==> v@[r as int] == '\n',
{
    let mut j = pos;
    while j < v.len() && v[j] != '\n'
        invariant
            pos <= j <= v@.len(),
            line_len(v@.skip(pos as int)) == (j - pos) + line_len(v@.skip(j as int)),
        decreases v.len() - j,
    {
        assert(v@.skip(j as int).drop_first() == v@.skip(j + 1));
        j = j + 1;
    }
    j
}

/// The end of `v[lo..hi]` with one trailing `'\r'` removed.
fn strip_cr_end(v: &[char], lo: usize, hi: usize) -> (r: usize)
    requires
        lo <= hi <= v@.len(),
    ensures
        lo <= r <= hi,
        v@.subrange(lo as int, r as int) == strip_cr(v@.subrange(lo as int, hi as int)),
{
    if hi > lo && v[hi - 1] == '\r' {
        assert(v@.subrange(lo as int, hi as int).drop_last() == v@.subrange(lo as int, hi - 1));
        hi - 1
    } else {
        hi
    }
}

/// The first line of a non-empty `v`, as bounds `v[0..r]`.
pub fn first_line_end(v: &[char]) -> (r: usize)
    requires
        v@.len() > 0,
    ensures
        r <= v@.len(),
        v@.take(r as int) == first_line(v@),
{
    let k = line_end(v, 0);
    assert(v@.skip(0) == v@);
    if k < v.len() {
        let e = strip_cr_end(v, 0, k);
        assert(v@.subrange(0, k as int) == v@.take(k as int));
        assert(v@.subrange(0, e as int) == v@.take(e as int));
        e
    } else {
        assert(v@.take(k as int) == v@);
        k
    }
}

/// All lines of `v`, each as its own vector (`str::lines`).
pub fn lines_of(v: &[char]) -> (r: Vec<Vec<char>>)
    ensures
        r@.len() == lines(v@).len(),
        forall|i: int| 0 <= i < r@.len() ==> #[trigger] r@[i]@ == lines(v@)[i],
{
    let mut r: Vec<Vec<char>> = Vec::new();
    let mut pos: usize = 0;
    let ghost done: Seq<Seq<char>> = seq![];
    assert(v@.skip(0) == v@);
    while pos < v.len()
        invariant
            pos <= v@.len(),
            r@.len() == done.len(),
            forall|i: int| 0 <= i < r@.len() ==> #[trigger] r@[i]@ == done[i],
            lines(v@) == done + lines(v@.skip(pos as int)),
        decreases v.len() - pos,
    {
        let ghost rest = v@.skip(pos as int);
        let k = line_end(v, pos);
        if k < v.len() {
            let e = strip_cr_end(v, pos, k);
            let line = slice_to_vec(v, pos, e);
            proof {
                assert(rest.take((k - pos) as int) == v@.subrange(pos as int, k as int));
                assert(rest.skip(k - pos + 1) == v@.skip(k + 1));
                done = done.push(line@);
                assert(lines(v@) == done + lines(v@.skip(k + 1)));
            }
            r.push(line);
            pos = k + 1;
        } else {
            let line = slice_to_vec(v, pos, k);
            proof {
                assert(v@.subrange(pos as int, k as int) == rest);
                done = done.push(line@);
                assert(v@.skip(k as int).len() == 0);
                assert(lines(v@.skip(k as int)) == Seq::<Seq<char>>::empty());
                assert(lines(v@) == done + lines(v@.skip(k as int)));
            }
            r.push(line);
            pos = k;
        }
    }
    proof {
        assert(v@.skip(pos as int).len() == 0);
        assert(lines(v@) == done);
    }
    r
}


/// Appends the characters of `src` to `out`.
pub fn append_chars(out: &mut Vec<char>, src: &[char])
    ensures
        final(out)@ == old(out)@ + src@,
{
    let mut i: usize = 0;
    while i < src.len()
        invariant
            0 <= i <= src@.len(),
            out@ == old(out)@ + src@.take(i as int),
        decreases src.len() - i,
    {
        out.push(src[i]);
        assert(src@.take(i + 1) == src@.take(i as int).push(src@[i as int]));
        i = i + 1;
    }
    assert(src@.take(src@.len() as int) == src@);
}

/// `s` cut to `max` characters, with `'…'` appended when anything was cut.
pub open spec fn truncated(s: Seq<char>, max: nat) -> Seq<char> {
    if s.len() <= max {
        s
    } else {
        s.take(max as int).push('…')
    }
}

/// Character-vector form of [`truncate_with_ellipsis`].
pub fn truncate_chars(v: &[char], max_chars: usize) -> (r: Vec<char>)
    ensures
        r@ == truncated(v@, max_chars as nat),
{
    if v.len() <= max_chars {
        slice_to_vec(v, 0, v.len())
    } else {
        let mut r = slice_to_vec(v, 0, max_chars);
        r.push('…');
        r
    }
}

/// Truncates `s` to `max_chars` characters, appending `'…'` if anything was cut.
pub fn truncate_with_ellipsis(s: &str, max_chars: usize) -> (r: String)
    ensures
        r@ == truncated(s@, max_chars as nat),
{
    let v = chars_of(s);
    let t = truncate_chars(v.as_slice(), max_chars);
    string_of(t.as_slice())
}

/// The decimal digit character for `d < 10`.
pub open spec fn digit_char(d: nat) -> char {
    seq!['0', '1', '2', '3', '4', '5', '6', '7', '8', '9'][d as int]
}

/// The decimal rendering of `n`, without leading zeros.
pub open spec fn dec(n: nat) -> Seq<char>
    decreases n,
{
    if n < 10 {
        seq![digit_char(n)]
    } else {
        dec(n / 10).push(digit_char(n % 10))
    }
}

fn digit(d: u64) -> (c: char)
    requires
        d < 10,
    ensures
        c == digit_char(d as nat),
{
    match d {
        0 => '0',
        1 => '1',
        2 => '2',
        3 => '3',
        4 => '4',
        5 => '5',
        6 => '6',
        7 => '7',
        8 => '8',
        _ => '9',
    }
}

/// The decimal digits of `n`.
pub fn decimal(n: u64) -> (r: Vec<char>)
    ensures
        r@ == dec(n as nat),
    decreases n,
{
    if n < 10 {
        let mut r: Vec<char> = Vec::new();
        r.push(digit(n));
        assert(r@ == seq![digit_char(n as nat)]);
        r
    } else {
        let mut r = decimal(n / 10);
        r.push(digit(n % 10));
        r
    }
}

/// The views of a sequence of character vectors.
pub open spec fn views(v: Seq<Vec<char>>) -> Seq<Seq<char>> {
    v.map_values(|p: Vec<char>| p@)
}

/// The pieces of `parts` with `sep` between each two (`[..].join(sep)`).
pub open spec fn join(parts: Seq<Seq<char>>, sep: Seq<char>) -> Seq<char>
    decreases parts.len(),
{
    if parts.len() == 0 {
        seq![]
    } else if parts.len() == 1 {
        parts[0]
    } else {
        join(parts.drop_last(), sep) + sep + parts.last()
    }
}

/// Joins the pieces of `parts` with `sep` between each two.
pub fn join_chars(parts: &Vec<Vec<char>>, sep: &[char]) -> (r: Vec<char>)
    ensures
        r@ == join(views(parts@), sep@),
{
    let mut r: Vec<char> = Vec::new();
    let mut i: usize = 0;
    while i < parts.len()
        invariant
            0 <= i <= parts@.len(),
            r@ == join(views(parts@).take(i as int), sep@),
        decreases parts.len() - i,
    {
        let ghost before = views(parts@).take(i as int);
        if i > 0 {
            append_chars(&mut r, sep);
        }
        append_chars(&mut r, parts[i].as_slice());
        proof {
            let after = views(parts@).take(i + 1);
            assert(after.drop_last() == before);
            assert(after.last() == parts@[i as int]@);
            if i == 0 {
                assert(after.len() == 1);
            }
        }
        i = i + 1;
    }
    assert(views(parts@).take(parts@.len() as int) == views(parts@));
    r
}

/// `needle` occurs in `hay` starting at index `k`.
pub open spec fn occurs_at(hay: Seq<char>, needle: Seq<char>, k: int) -> bool {
    0 <= k && k + needle.len() <= hay.len() && hay.subrange(k, k + needle.len()) == needle
}

/// `needle` occurs somewhere in `hay` (`str::contains`).
pub open spec fn contains(hay: Seq<char>, needle: Seq<char>) -> bool {
    exists|k: int| occurs_at(hay, needle, k)
}

/// The first occurrence of `needle` in `hay` at or after `i`.
pub open spec fn find_from(hay: Seq<char>, needle: Seq<char>, i: int) -> Option<int>
    decreases hay.len() + 1 - i,
{
    if i < 0 || i + needle.len() > hay.len() {
        None
    } else if occurs_at(hay, needle, i) {
        Some(i)
    } else {
        find_from(hay, needle, i + 1)
    }
}

/// The index of the first occurrence of `needle` in `hay` (`str::find`).
pub open spec fn find_first(hay: Seq<char>, needle: Seq<char>) -> Option<int> {
    find_from(hay, needle, 0)
}

/// What `find_from` returns is an occurrence, and none lies between `i` and it.
pub proof fn lemma_find_from(hay: Seq<char>, needle: Seq<char>, i: int)
    requires
        0 <= i,
    ensures
        find_from(hay, needle, i) matches Some(k) ==> i <= k && occurs_at(hay, needle, k) && (
        forall|j: int| i <= j < k ==> !occurs_at(hay, needle, j)),
        find_from(hay, needle, i) is None ==> forall|j: int|
            i <= j ==> !occurs_at(hay, needle, j),
    decreases hay.len() + 1 - i,
{
    if i + needle.len() > hay.len() {
    } else if occurs_at(hay, needle, i) {
    } else {
        lemma_find_from(hay, needle, i + 1);
    }
}

/// `contains` holds exactly when `find_first` finds something.
pub proof fn lemma_contains_find(hay: Seq<char>, needle: Seq<char>)
    ensures
        contains(hay, needle) <==> find_first(hay, needle) is Some,
{
    lemma_find_from(hay, needle, 0);
}

fn occurs_at_exec(hay: &[char], needle: &[char], k: usize) -> (b: bool)
    requires
        k + needle@.len() <= hay@.len(),
    ensures
        b == occurs_at(hay@, needle@, k as int),
{
    let n = hay.len();
    let mut j: usize = 0;
    while j < needle.len()
        invariant
            n == hay@.len(),
            k + needle@.len() <= hay@.len(),
            0 <= j <= needle@.len(),
            forall|t: int| 0 <= t < j ==> hay@[k + t] == needle@[t],
        decreases needle.len() - j,
    {
        assert(k + j < hay@.len());
        if hay[k + j] != needle[j] {
            assert(hay@.subrange(k as int, k + needle@.len())[j as int] != needle@[j as int]);
            return false;
        }
        j = j + 1;
    }
    assert(hay@.subrange(k as int, k + needle@.len()) == needle@);
    true
}

/// The index of the first occurrence of `needle` in `hay`.
pub fn find_chars(hay: &[char], needle: &[char]) -> (r: Option<usize>)
    ensures
        match r {
            Some(k) => find_first(hay@, needle@) == Some(k as int),
            None => find_first(hay@, needle@) is None,
        },
{
    if needle.len() > hay.len() {
        return None;
    }
    let mut i: usize = 0;
    let last = hay.len() - needle.len();
    loop
        invariant
            needle@.len() <= hay@.len(),
            last == hay@.len() - needle@.len(),
            find_first(hay@, needle@) == find_from(hay@, needle@, i as int),
            i <= last,
        decreases last - i,
    {
        if occurs_at_exec(hay, needle, i) {
            return Some(i);
        }
        if i == last {
            return None;
        }
        i = i + 1;
    }
}

/// The number of bytes that `c` takes in UTF-8.
pub open spec fn char_width(c: char) -> nat {
    let v = c as u32;
    if v < 0x80 {
        1
    } else if v < 0x800 {
        2
    } else if v < 0x10000 {
        3
    } else {
        4
    }
}

/// The number of bytes that `s` takes in UTF-8.
pub open spec fn utf8_len(s: Seq<char>) -> nat
    decreases s.len(),
{
    if s.len() == 0 {
        0
    } else {
        utf8_len(s.drop_last()) + char_width(s.last())
    }
}

/// The UTF-8 width of `c`, as `char::len_utf8` gives it.
pub fn width_of(c: char) -> (w: usize)
    ensures
        w == char_width(c),
{
    let v = c as u32;
    if v < 0x80 {
        1
    } else if v < 0x800 {
        2
    } else if v < 0x10000 {
        3
    } else {
        4
    }
}

/// The byte offset of character `j` in `s` grows by that character's width.
pub proof fn lemma_utf8_take_step(s: Seq<char>, j: int)
    requires
        0 <= j < s.len(),
    ensures
        utf8_len(s.take(j + 1)) == utf8_len(s.take(j)) + char_width(s[j]),
{
    assert(s.take(j + 1).drop_last() == s.take(j));
}

/// Byte offsets grow strictly with the character index.
pub proof fn lemma_utf8_take_mono(s: Seq<char>, i: int, j: int)
    requires
        0 <= i <= j <= s.len(),
    ensures
        utf8_len(s.take(i)) + (j - i) <= utf8_len(s.take(j)),
    decreases j - i,
{
    if i < j {
        lemma_utf8_take_mono(s, i, j - 1);
        lemma_utf8_take_step(s, j - 1);
    }
}

/// The byte length of `s`, by `str::len`; trusted to be the UTF-8 length of
/// its characters (what `str::len` documents) and at most `isize::MAX` (no
/// allocation is larger, as `std::slice::from_raw_parts` documents).
#[verifier::external_body]
pub(crate) fn byte_len(s: &str) -> (n: usize)
    ensures
        n == utf8_len(s@),
        n <= isize::MAX,
{
    s.len()
}


/// `s` begins with `p`.
pub open spec fn starts_with(s: Seq<char>, p: Seq<char>) -> bool {
    p.len() <= s.len() && s.take(p.len() as int) == p
}

/// `s` with every leading repetition of `p` removed (`str::trim_start_matches`).
pub open spec fn strip_all_prefix(s: Seq<char>, p: Seq<char>) -> Seq<char>
    decreases s.len(),
{
    if p.len() > 0 && starts_with(s, p) {
        strip_all_prefix(s.skip(p.len() as int), p)
    } else {
        s
    }
}

/// Whether `v` holds exactly the characters of `lit`.
pub fn is_lit(v: &[char], lit: &str) -> (b: bool)
    ensures
        b == (v@ == lit@),
{
    let l = chars_of(lit);
    if v.len() != l.len() {
        return false;
    }
    let mut i: usize = 0;
    while i < v.len()
        invariant
            v@.len() == l@.len(),
            l@ == lit@,
            0 <= i <= v@.len(),
            forall|k: int| 0 <= k < i ==> v@[k] == l@[k],
        decreases v.len() - i,
    {
        if v[i] != l[i] {
            return false;
        }
        i = i + 1;
    }
    assert(v@ == l@);
    true
}

/// Whether `v[at..]` begins with the characters of `p`.
pub fn has_prefix_at(v: &[char], at: usize, p: &[char]) -> (b: bool)
    requires
        at <= v@.len(),
    ensures
        b == starts_with(v@.skip(at as int), p@),
{
    if p.len() > v.len() - at {
        return false;
    }
    let n = v.len();
    let mut i: usize = 0;
    while i < p.len()
        invariant
            n == v@.len(),
            at <= v@.len(),
            p@.len() <= v@.len() - at,
            0 <= i <= p@.len(),
            forall|k: int| 0 <= k < i ==> v@[at + k] == p@[k],
        decreases p.len() - i,
    {
        if v[at + i] != p[i] {
            assert(v@.skip(at as int).take(p@.len() as int)[i as int] != p@[i as int]);
            return false;
        }
        i = i + 1;
    }
    assert(v@.skip(at as int).take(p@.len() as int) == p@);
    true
}

/// Whether `v` begins with the characters of `p`.
pub fn has_prefix(v: &[char], p: &[char]) -> (b: bool)
    ensures
        b == starts_with(v@, p@),
{
    assert(v@.skip(0) == v@);
    has_prefix_at(v, 0, p)
}

/// Whether `v` begins with the characters of `lit`.
pub fn has_prefix_lit(v: &[char], lit: &str) -> (b: bool)
    ensures
        b == starts_with(v@, lit@),
{
    let l = chars_of(lit);
    has_prefix(v, l.as_slice())
}

/// The index in `v` after every leading repetition of the non-empty `p`.
pub fn strip_all_prefix_index(v: &[char], p: &[char]) -> (r: usize)
    requires
        p@.len() > 0,
    ensures
        r <= v@.len(),
        v@.skip(r as int) == strip_all_prefix(v@, p@),
{
    let mut i: usize = 0;
    assert(v@.skip(0) == v@);
    while p.len() <= v.len() - i && has_prefix_at(v, i, p)
        invariant
            p@.len() > 0,
            i <= v@.len(),
            strip_all_prefix(v@, p@) == strip_all_prefix(v@.skip(i as int), p@),
        decreases v.len() - i,
    {
        assert(v@.skip(i as int).skip(p@.len() as int) == v@.skip(i + p@.len()));
        i = i + p.len();
    }
    i
}

/// The number of leading characters of `s` that are not white space.
pub open spec fn token_len(s: Seq<char>) -> nat
    decreases s.len(),
{
    if s.len() == 0 || is_ws(s[0]) {
        0
    } else {
        1 + token_len(s.drop_first())
    }
}

/// The first white-space separated word of `s`, or all of `s` when it has
/// none (`s.split_whitespace().next().unwrap_or(s)`).
pub open spec fn first_word(s: Seq<char>) -> Seq<char> {
    let t = trim_start(s);
    if t.len() == 0 {
        s
    } else {
        t.take(token_len(t) as int)
    }
}

/// The first white-space separated word of `v`, or all of `v` when it has none.
pub fn first_word_of(v: &[char]) -> (r: Vec<char>)
    ensures
        r@ == first_word(v@),
{
    let mut i: usize = 0;
    assert(v@.skip(0) == v@);
    while i < v.len() && is_whitespace(v[i])
        invariant
            i <= v@.len(),
            trim_start(v@) == trim_start(v@.skip(i as int)),
        decreases v.len() - i,
    {
        assert(v@.skip(i as int).drop_first() == v@.skip(i + 1));
        i = i + 1;
    }
    if i == v.len() {
        assert(v@.skip(i as int).len() == 0);
        return slice_to_vec(v, 0, v.len());
    }
    assert(trim_start(v@.skip(i as int)) == v@.skip(i as int));
    let mut j = i;
    while j < v.len() && !is_whitespace(v[j])
        invariant
            i <= j <= v@.len(),
            token_len(v@.skip(i as int)) == (j - i) + token_len(v@.skip(j as int)),
        decreases v.len() - j,
    {
        assert(v@.skip(j as int).drop_first() == v@.skip(j + 1));
        j = j + 1;
    }
    assert(v@.skip(i as int).take((j - i) as int) == v@.subrange(i as int, j as int));
    slice_to_vec(v, i, j)
}


/// Trimming the start drops a run of white space, up to the first other character.
pub proof fn lemma_trim_start_skip(x: Seq<char>) -> (a: int)
    ensures
        0 <= a <= x.len(),
        trim_start(x) == x.skip(a),
        forall|i: int| 0 <= i < a ==> is_ws(#[trigger] x[i]),
        a < x.len() ==> !is_ws(x[a]),
    decreases x.len(),
{
    if x.len() > 0 && is_ws(x[0]) {
        let b = lemma_trim_start_skip(x.drop_first());
        assert(x.drop_first().skip(b) == x.skip(b + 1));
        assert forall|i: int| 0 <= i < b + 1 implies is_ws(#[trigger] x[i]) by {
            if i > 0 {
                assert(x[i] == x.drop_first()[i - 1]);
            }
        }
        b + 1
    } else {
        assert(x.skip(0) == x);
        0
    }
}

/// Trimming the end drops a run of white space, back to the last other character.
pub proof fn lemma_trim_end_take(y: Seq<char>) -> (b: int)
    ensures
        0 <= b <= y.len(),
        trim_end(y) == y.take(b),
        forall|i: int| b <= i < y.len() ==> is_ws(#[trigger] y[i]),
        b > 0 ==> !is_ws(y[b - 1]),
    decreases y.len(),
{
    if y.len() > 0 && is_ws(y.last()) {
        let b = lemma_trim_end_take(y.drop_last());
        assert(y.drop_last().take(b) == y.take(b));
        assert forall|i: int| b <= i < y.len() implies is_ws(#[trigger] y[i]) by {
            if i < y.len() - 1 {
                assert(y[i] == y.drop_last()[i]);
            }
        }
        b
    } else {
        assert(y.take(y.len() as int) == y);
        y.len() as int
    }
}

/// A piece that neither starts nor ends with white space survives trimming.
pub proof fn lemma_trim_keeps_occurrence(x: Seq<char>, q: Seq<char>, p: int)
    requires
        occurs_at(x, q, p),
        q.len() > 0,
        !is_ws(q[0]),
        !is_ws(q.last()),
    ensures
        contains(trim(x), q),
{
    let m = q.len() as int;
    assert(x[p] == x.subrange(p, p + m)[0]);
    assert(x[p + m - 1] == x.subrange(p, p + m)[m - 1]);
    let a = lemma_trim_start_skip(x);
    let y = x.skip(a);
    assert(a <= p);
    let b = lemma_trim_end_take(y);
    assert(y[p - a + m - 1] == x[p + m - 1]);
    assert(b >= p - a + m);
    let z = y.take(b);
    assert(z.subrange(p - a, p - a + m) == x.subrange(p, p + m));
    assert(occurs_at(z, q, p - a));
}

/// An occurrence inside the middle piece is an occurrence in the whole.
pub proof fn lemma_contains_in_middle(pre: Seq<char>, mid: Seq<char>, post: Seq<char>, q: Seq<char>)
    requires
        contains(mid, q),
    ensures
        contains(pre + mid + post, q),
{
    let p = choose|p: int| occurs_at(mid, q, p);
    let whole = pre + mid + post;
    let o = pre.len() + p;
    assert(whole.subrange(o, o + q.len()) == mid.subrange(p, p + q.len()));
    assert(occurs_at(whole, q, o));
}

/// Every piece of a join occurs in it, and the joined length is the sum of
/// the pieces plus one separator between each two.
pub proof fn lemma_join_parts(parts: Seq<Seq<char>>, sep: Seq<char>)
    ensures
        forall|i: int| 0 <= i < parts.len() ==> #[trigger] contains(join(parts, sep), parts[i]),
        join(parts, sep).len() == total_len(parts) + if parts.len() == 0 {
            0
        } else {
            (parts.len() - 1) * sep.len()
        },
        parts.len() > 0 ==> starts_with(join(parts, sep), parts[0]),
    decreases parts.len(),
{
    if parts.len() == 1 {
        assert(join(parts, sep) == parts[0]);
        assert(occurs_at(parts[0], parts[0], 0)) by {
            assert(parts[0].subrange(0, parts[0].len() as int) == parts[0]);
        }
        assert(total_len(parts.drop_last()) == 0);
        assert(parts[0].take(parts[0].len() as int) == parts[0]);
    } else if parts.len() > 1 {
        let d = parts.drop_last();
        lemma_join_parts(d, sep);
        let jd = join(d, sep);
        let j = join(parts, sep);
        assert(j == jd + sep + parts.last());
        assert forall|i: int| 0 <= i < parts.len() implies #[trigger] contains(j, parts[i]) by {
            if i < d.len() {
                assert(parts[i] == d[i]);
                assert(contains(jd, d[i]));
                let p = choose|p: int| occurs_at(jd, d[i], p);
                assert(j.subrange(p, p + d[i].len()) == jd.subrange(p, p + d[i].len()));
                assert(occurs_at(j, parts[i], p));
            } else {
                let o = (jd.len() + sep.len()) as int;
                assert(j.subrange(o, o + parts.last().len()) == parts.last());
                assert(occurs_at(j, parts[i], o));
            }
        }
        assert(j.take(parts[0].len() as int) == jd.take(parts[0].len() as int));
        assert(parts[0] == d[0]);
        assert(d.len() - 1 >= 0);
        assert((parts.len() - 1) * sep.len() == (d.len() - 1) * sep.len() + sep.len())
            by (nonlinear_arith)
            requires
                parts.len() == d.len() + 1,
        ;
    }
}

/// The sum of the lengths of the pieces.
pub open spec fn total_len(parts: Seq<Seq<char>>) -> nat
    decreases parts.len(),
{
    if parts.len() == 0 {
        0
    } else {
        total_len(parts.drop_last()) + parts.last().len()
    }
}

/// A line holds no line feed; it ends at the first one, if any.
pub proof fn lemma_line_len(s: Seq<char>)
    ensures
        line_len(s) <= s.len(),
        forall|i: int| 0 <= i < line_len(s) ==> s[i] != '\n',
        line_len(s) < s.len() ==> s[line_len(s) as int] == '\n',
    decreases s.len(),
{
    if s.len() > 0 && s[0] != '\n' {
        lemma_line_len(s.drop_first());
        assert forall|i: int| 0 <= i < line_len(s) implies s[i] != '\n' by {
            if i > 0 {
                assert(s[i] == s.drop_first()[i - 1]);
            }
        }
    }
}

/// A trimmed text starts with a character that is not white space.
pub proof fn lemma_trim_first(x: Seq<char>)
    ensures
        trim(x).len() > 0 ==> !is_ws(trim(x)[0]) && !is_ws(trim(x).last()),
        forall|i: int| 0 <= i < x.len() && !is_ws(x[i]) ==> trim(x).len() > 0,
{
    let a = lemma_trim_start_skip(x);
    let y = x.skip(a);
    let b = lemma_trim_end_take(y);
    if trim(x).len() > 0 {
        assert(trim(x)[0] == x[a]);
        assert(trim(x).last() == y[b - 1]);
    }
    assert forall|i: int| 0 <= i < x.len() && !is_ws(x[i]) implies trim(x).len() > 0 by {
        assert(i >= a);
        assert(y[i - a] == x[i]);
        assert(b > i - a);
    }
}

/// The first line of a trimmed, non-empty text is non-empty, starts the
/// text, and holds no line feed.
pub proof fn lemma_first_line_of_trimmed(t: Seq<char>)
    requires
        t.len() > 0,
        !is_ws(t[0]),
    ensures
        first_line(t).len() > 0,
        first_line(t)[0] == t[0],
        first_line(t).len() <= t.len(),
        forall|i: int| 0 <= i < first_line(t).len() ==> first_line(t)[i] != '\n',
        forall|i: int| 0 <= i < first_line(t).len() ==> first_line(t)[i] == t[i],
{
    lemma_line_len(t);
    let k = line_len(t);
    assert(t[0] != '\n');
    assert(k >= 1);
    if k < t.len() {
        assert(t[0] != '\r');
        let l = t.take(k as int);
        if l.last() == '\r' {
            assert(k >= 2);
        }
    }
}

/// Every character of `s` is ASCII.
pub open spec fn is_ascii_text(s: Seq<char>) -> bool {
    forall|i: int| 0 <= i < s.len() ==> (#[trigger] s[i] as u32) < 128
}

/// `c` with an ASCII capital letter turned into its small letter.
pub open spec fn ascii_lower_char(c: char) -> char {
    if 'A' <= c <= 'Z' {
        ((c as u32) + 32) as char
    } else {
        c
    }
}

/// `s` with every ASCII capital letter turned into its small letter.
pub open spec fn ascii_lower(s: Seq<char>) -> Seq<char> {
    s.map_values(|c: char| ascii_lower_char(c))
}

/// The first line of a non-empty text is the first of its lines.
pub proof fn law_first_line_is_first_of_lines(s: Seq<char>)
    requires
        s.len() > 0,
    ensures
        lines(s).len() > 0,
        lines(s)[0] == first_line(s),
{
}

/// Truncation keeps at most `max` characters of the text, in order, and adds
/// the ellipsis exactly when something was cut.
pub proof fn law_truncation(s: Seq<char>, max: nat)
    ensures
        truncated(s, max).len() <= max + 1,
        truncated(s, max).len() <= s.len() + 1,
        s.len() <= max ==> truncated(s, max) == s,
        s.len() > max ==> truncated(s, max).last() == '…' && truncated(s, max).drop_last()
            == s.take(max as int),
{
}

} // verus!
