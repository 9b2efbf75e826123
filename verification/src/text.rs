use vstd::prelude::*;

verus! {

broadcast use vstd::string::group_string_axioms;

/// Appends one character to a string.
///
/// Trusted: wraps `String::push`, which std documents as appending the given
/// character to the end of the string; the contract claims exactly that.
#[verifier::external_body]
pub(crate) fn push_char(s: &mut String, c: char)
    ensures
        final(s)@ == old(s)@.push(c),
{
    s.push(c);
}

/// The characters of a string slice, in order.
pub fn chars_of(s: &str) -> (v: Vec<char>)
    ensures
        v@ == s@,
{
    let mut v: Vec<char> = Vec::new();
    for c in it: s.chars()
        invariant
            v@ == it.seq().take(it.index() as int),
            it.seq() == s@,
    {
        v.push(c);
        assert(it.seq().take(it.index() + 1) == v@);
    }
    v
}

/// A string made of the given characters.
pub fn string_of(v: &[char]) -> (s: String)
    ensures
        s@ == v@,
{
    let mut s = String::new();
    for i in 0..v.len()
        invariant
            s@ == v@.take(i as int),
    {
        push_char(&mut s, v[i]);
        assert(v@.take(i + 1) == v@.take(i as int).push(v@[i as int]));
    }
    assert(v@.take(v.len() as int) == v@);
    s
}


/// A copy of `v[from..to]`.
pub fn sub_vec(v: &[char], from: usize, to: usize) -> (r: Vec<char>)
    requires
        from <= to <= v.len(),
    ensures
        r@ == v@.subrange(from as int, to as int),
{
    let mut r: Vec<char> = Vec::new();
    let mut i = from;
    while i < to
        invariant
            from <= i <= to <= v.len(),
            r@ == v@.subrange(from as int, i as int),
        decreases to - i,
    {
        r.push(v[i]);
        assert(v@.subrange(from as int, i + 1) == v@.subrange(from as int, i as int).push(v@[i as int]));
        i = i + 1;
    }
    r
}

/// `char::is_whitespace`: the characters with the Unicode `White_Space` property.
pub open spec fn is_ws(c: char) -> bool {
    ||| ('\u{9}' <= c && c <= '\u{d}')
    ||| c == ' '
    ||| c == '\u{85}'
    ||| c == '\u{a0}'
    ||| c == '\u{1680}'
    ||| ('\u{2000}' <= c && c <= '\u{200a}')
    ||| c == '\u{2028}'
    ||| c == '\u{2029}'
    ||| c == '\u{202f}'
    ||| c == '\u{205f}'
    ||| c == '\u{3000}'
}

/// The character is whitespace.
pub fn is_whitespace(c: char) -> (r: bool)
    ensures
        r == is_ws(c),
{
    ('\u{9}' <= c && c <= '\u{d}') || c == ' ' || c == '\u{85}' || c == '\u{a0}' || c
        == '\u{1680}' || ('\u{2000}' <= c && c <= '\u{200a}') || c == '\u{2028}' || c
        == '\u{2029}' || c == '\u{202f}' || c == '\u{205f}' || c == '\u{3000}'
}

/// `str::trim_start`: drops the leading whitespace.
pub open spec fn trim_start(s: Seq<char>) -> Seq<char>
    decreases s.len(),
{
    if s.len() > 0 && is_ws(s[0]) {
        trim_start(s.drop_first())
    } else {
        s
    }
}

/// `str::trim_end`: drops the trailing whitespace.
pub open spec fn trim_end(s: Seq<char>) -> Seq<char>
    decreases s.len(),
{
    if s.len() > 0 && is_ws(s.last()) {
        trim_end(s.drop_last())
    } else {
        s
    }
}

/// `str::trim`: drops the leading and the trailing whitespace.
pub open spec fn trim(s: Seq<char>) -> Seq<char> {
    trim_end(trim_start(s))
}

/// The bounds of `trim(v)` inside `v`.
pub fn trim_bounds(v: &[char]) -> (r: (usize, usize))
    ensures
        r.0 <= r.1 <= v.len(),
        v@.subrange(r.0 as int, r.1 as int) == trim(v@),
{
    let mut i: usize = 0;
    assert(v@.skip(0) == v@);
    while i < v.len() && is_whitespace(v[i])
        invariant
            i <= v.len(),
            trim_start(v@) == trim_start(v@.skip(i as int)),
        decreases v.len() - i,
    {
        assert(v@.skip(i as int).drop_first() == v@.skip(i + 1));
        i = i + 1;
    }
    assert(v@.skip(i as int) == v@.subrange(i as int, v.len() as int));
    let mut j: usize = v.len();
    while j > i && is_whitespace(v[j - 1])
        invariant
            i <= j <= v.len(),
            trim(v@) == trim_end(v@.subrange(i as int, j as int)),
        decreases j,
    {
        assert(v@.subrange(i as int, j as int).drop_last() == v@.subrange(i as int, j - 1));
        j = j - 1;
    }
    (i, j)
}

/// `trim(v)` as a new vector.
pub fn trim_chars(v: &[char]) -> (r: Vec<char>)
    ensures
        r@ == trim(v@),
{
    let (i, j) = trim_bounds(v);
    sub_vec(v, i, j)
}

/// `p` occurs in `s` at position `i`.
pub open spec fn match_at(s: Seq<char>, p: Seq<char>, i: int) -> bool {
    0 <= i && i + p.len() <= s.len() && s.subrange(i, i + p.len()) == p
}

/// `p` occurs in `s` at position `i`.
pub fn matches_at(s: &[char], p: &[char], i: usize) -> (r: bool)
    ensures
        r == match_at(s@, p@, i as int),
{
    if i > s.len() || p.len() > s.len() - i {
        return false;
    }
    let mut k: usize = 0;
    while k < p.len()
        invariant
            i + p.len() <= s.len(),
            k <= p.len(),
            s@.subrange(i as int, i + k) == p@.take(k as int),
        decreases p.len() - k,
    {
        if s[i + k] != p[k] {
            assert(s@.subrange(i as int, i + p.len())[k as int] != p@[k as int]);
            return false;
        }
        assert(s@.subrange(i as int, i + k + 1) == p@.take(k + 1));
        k = k + 1;
    }
    assert(p@.take(p.len() as int) == p@);
    true
}

/// `s` starts with `p`.
pub open spec fn starts_with(s: Seq<char>, p: Seq<char>) -> bool {
    match_at(s, p, 0)
}

/// `s` ends with `p`.
pub open spec fn ends_with(s: Seq<char>, p: Seq<char>) -> bool {
    match_at(s, p, s.len() - p.len())
}

/// The first position at or after `i` where `p` occurs in `s`.
pub open spec fn find_from(s: Seq<char>, p: Seq<char>, i: int) -> Option<int>
    decreases s.len() + 1 - i,
{
    if i < 0 || i + p.len() > s.len() {
        None
    } else if match_at(s, p, i) {
        Some(i)
    } else {
        find_from(s, p, i + 1)
    }
}

/// The first position where `p` occurs in `s`.
pub open spec fn find(s: Seq<char>, p: Seq<char>) -> Option<int> {
    find_from(s, p, 0)
}

/// The first position where `p` occurs in `s`.
pub fn find_chars(s: &[char], p: &[char]) -> (r: Option<usize>)
    ensures
        r matches Some(i) ==> find(s@, p@) == Some(i as int),
        r is None ==> find(s@, p@) is None,
{
    if p.len() > s.len() {
        return None;
    }
    let last = s.len() - p.len();
    let mut i: usize = 0;
    loop
        invariant
            last == s.len() - p.len(),
            i <= last,
            find(s@, p@) == find_from(s@, p@, i as int),
        decreases last - i,
    {
        if matches_at(s, p, i) {
            return Some(i);
        }
        if i == last {
            assert(find_from(s@, p@, i + 1) is None);
            return None;
        }
        i = i + 1;
    }
}

/// `str::contains` with a string pattern.
pub open spec fn contains(s: Seq<char>, p: Seq<char>) -> bool {
    find(s, p) is Some
}

/// `str::split_once` with a string pattern.
pub open spec fn split_once(s: Seq<char>, p: Seq<char>) -> Option<(Seq<char>, Seq<char>)> {
    match find(s, p) {
        Some(i) => Some((s.take(i), s.skip(i + p.len()))),
        None => None,
    }
}

/// `str::strip_prefix` with a string pattern.
pub open spec fn strip_prefix(s: Seq<char>, p: Seq<char>) -> Option<Seq<char>> {
    if starts_with(s, p) {
        Some(s.skip(p.len() as int))
    } else {
        None
    }
}

/// `str::trim_start_matches` with a non-empty string pattern: drops `p` from
/// the front as often as it is there.
pub open spec fn trim_start_matches(s: Seq<char>, p: Seq<char>) -> Seq<char>
    decreases s.len(),
{
    if p.len() > 0 && starts_with(s, p) {
        trim_start_matches(s.skip(p.len() as int), p)
    } else {
        s
    }
}

/// `str::trim_end_matches` with a non-empty string pattern: drops `p` from
/// the end as often as it is there.
pub open spec fn trim_end_matches(s: Seq<char>, p: Seq<char>) -> Seq<char>
    decreases s.len(),
{
    if p.len() > 0 && ends_with(s, p) {
        trim_end_matches(s.take(s.len() - p.len()), p)
    } else {
        s
    }
}


/// `s` with `p` removed from its front.
pub fn strip_prefix_chars(s: &[char], p: &[char]) -> (r: Option<Vec<char>>)
    ensures
        r matches Some(t) ==> strip_prefix(s@, p@) == Some(t@),
        r is None ==> strip_prefix(s@, p@) is None,
{
    if matches_at(s, p, 0) {
        Some(sub_vec(s, p.len(), s.len()))
    } else {
        None
    }
}

/// `s` starts with `p`.
pub fn starts_with_chars(s: &[char], p: &[char]) -> (r: bool)
    ensures
        r == starts_with(s@, p@),
{
    matches_at(s, p, 0)
}

/// `s` ends with `p`.
pub fn ends_with_chars(s: &[char], p: &[char]) -> (r: bool)
    ensures
        r == ends_with(s@, p@),
{
    if p.len() > s.len() {
        false
    } else {
        matches_at(s, p, s.len() - p.len())
    }
}

/// `s` split at the first occurrence of `p`.
pub fn split_once_chars(s: &[char], p: &[char]) -> (r: Option<(Vec<char>, Vec<char>)>)
    ensures
        r matches Some(parts) ==> split_once(s@, p@) == Some((parts.0@, parts.1@)),
        r is None ==> split_once(s@, p@) is None,
{
    match find_chars(s, p) {
        Some(i) => {
            proof {
                lemma_find_from_found(s@, p@, 0);
                assert(find_from(s@, p@, 0) == Some(i as int));
                assert(match_at(s@, p@, i as int));
                assert(i + p@.len() <= s@.len());
            }
            let plen = p.len();
            assert(plen == p@.len());
            assert(i + plen <= s.len());
            Some((sub_vec(s, 0, i), sub_vec(s, i + plen, s.len())))
        },
        None => None,
    }
}

/// What `find_from` returns is a position where the pattern occurs.
pub proof fn lemma_find_from_found(s: Seq<char>, p: Seq<char>, i: int)
    ensures
        find_from(s, p, i) matches Some(j) ==> match_at(s, p, j) && i <= j,
    decreases s.len() + 1 - i,
{
    if !(i < 0 || i + p.len() > s.len()) && !match_at(s, p, i) {
        lemma_find_from_found(s, p, i + 1);
    }
}

/// `p` occurs in `s`.
pub fn contains_chars(s: &[char], p: &[char]) -> (r: bool)
    ensures
        r == contains(s@, p@),
{
    find_chars(s, p).is_some()
}

/// The two character sequences are equal.
pub fn eq_chars(a: &[char], b: &[char]) -> (r: bool)
    ensures
        r == (a@ == b@),
{
    if a.len() != b.len() {
        return false;
    }
    let r = matches_at(a, b, 0);
    assert(a@.subrange(0, a.len() as int) == a@);
    r
}

/// The two strings are equal.
pub fn eq_str(a: &str, b: &str) -> (r: bool)
    ensures
        r == (a@ == b@),
{
    let x = chars_of(a);
    let y = chars_of(b);
    eq_chars(x.as_slice(), y.as_slice())
}

/// `trim_start_matches(s, p)` as a new vector.
pub fn trim_start_matches_chars(s: &[char], p: &[char]) -> (r: Vec<char>)
    ensures
        r@ == trim_start_matches(s@, p@),
{
    let mut i: usize = 0;
    assert(s@.skip(0) == s@);
    while p.len() > 0 && matches_at(s, p, i)
        invariant
            i <= s.len(),
            trim_start_matches(s@, p@) == trim_start_matches(s@.skip(i as int), p@),
        decreases s.len() - i,
    {
        assert(s@.skip(i as int).subrange(0, p.len() as int) == s@.subrange(i as int, i + p.len()));
        assert(s@.skip(i as int).skip(p.len() as int) == s@.skip(i + p.len()));
        i = i + p.len();
    }
    if p.len() > 0 && p.len() <= s.len() - i {
        assert(s@.skip(i as int).subrange(0, p.len() as int) == s@.subrange(i as int, i + p.len()));
    }
    sub_vec(s, i, s.len())
}

/// `trim_end_matches(s, p)` as a new vector.
pub fn trim_end_matches_chars(s: &[char], p: &[char]) -> (r: Vec<char>)
    ensures
        r@ == trim_end_matches(s@, p@),
{
    let mut j: usize = s.len();
    assert(s@.take(s.len() as int) == s@);
    while p.len() > 0 && j >= p.len() && matches_at(s, p, j - p.len())
        invariant
            j <= s.len(),
            trim_end_matches(s@, p@) == trim_end_matches(s@.take(j as int), p@),
        decreases j,
    {
        assert(s@.take(j as int).subrange(j - p.len(), j as int) == s@.subrange(j - p.len(), j as int));
        assert(s@.take(j as int).take(j - p.len()) == s@.take(j - p.len()));
        j = j - p.len();
    }
    if p.len() > 0 && j >= p.len() {
        assert(s@.take(j as int).subrange(j - p.len(), j as int) == s@.subrange(j - p.len(), j as int));
    }
    sub_vec(s, 0, j)
}

/// The views of a sequence of character vectors.
pub open spec fn views(v: Seq<Vec<char>>) -> Seq<Seq<char>> {
    Seq::new(v.len(), |i: int| v[i]@)
}

/// The pieces of `s` seen so far when it is split at `sep` from left to
/// right: the finished pieces and the piece still open.
pub open spec fn split_state(s: Seq<char>, sep: char) -> (Seq<Seq<char>>, Seq<char>)
    decreases s.len(),
{
    if s.len() == 0 {
        (Seq::empty(), Seq::empty())
    } else {
        let (done, cur) = split_state(s.drop_last(), sep);
        if s.last() == sep {
            (done.push(cur), Seq::empty())
        } else {
            (done, cur.push(s.last()))
        }
    }
}

/// `str::split` with a character: the pieces between the separators, one
/// more than there are separators.
pub open spec fn split(s: Seq<char>, sep: char) -> Seq<Seq<char>> {
    split_state(s, sep).0.push(split_state(s, sep).1)
}

/// `s` split at every `sep`.
pub fn split_chars(s: &[char], sep: char) -> (r: Vec<Vec<char>>)
    ensures
        views(r@) == split(s@, sep),
{
    let mut done: Vec<Vec<char>> = Vec::new();
    let mut cur: Vec<char> = Vec::new();
    assert(s@.take(0) == Seq::<char>::empty());
    for i in 0..s.len()
        invariant
            (views(done@), cur@) == split_state(s@.take(i as int), sep),
    {
        assert(s@.take(i + 1).drop_last() == s@.take(i as int));
        if s[i] == sep {
            let piece = cur;
            let ghost old_done = done@;
            done.push(piece);
            assert(views(done@) == views(old_done).push(piece@));
            cur = Vec::new();
        } else {
            cur.push(s[i]);
        }
    }
    assert(s@.take(s.len() as int) == s@);
    let ghost old_done = done@;
    done.push(cur);
    assert(views(done@) == views(old_done).push(cur@));
    done
}

/// The words of `s` read from left to right: the finished words and the
/// characters of the word being read.
pub open spec fn words_state(s: Seq<char>) -> (Seq<Seq<char>>, Seq<char>)
    decreases s.len(),
{
    if s.len() == 0 {
        (Seq::empty(), Seq::empty())
    } else {
        let (done, cur) = words_state(s.drop_last());
        if is_ws(s.last()) {
            if cur.len() > 0 {
                (done.push(cur), Seq::empty())
            } else {
                (done, cur)
            }
        } else {
            (done, cur.push(s.last()))
        }
    }
}

/// `str::split_whitespace`: the non-empty pieces between whitespace.
pub open spec fn words(s: Seq<char>) -> Seq<Seq<char>> {
    let (done, cur) = words_state(s);
    if cur.len() > 0 {
        done.push(cur)
    } else {
        done
    }
}

/// The words of `s`.
pub fn words_chars(s: &[char]) -> (r: Vec<Vec<char>>)
    ensures
        views(r@) == words(s@),
{
    let mut done: Vec<Vec<char>> = Vec::new();
    let mut cur: Vec<char> = Vec::new();
    assert(s@.take(0) == Seq::<char>::empty());
    for i in 0..s.len()
        invariant
            (views(done@), cur@) == words_state(s@.take(i as int)),
    {
        assert(s@.take(i + 1).drop_last() == s@.take(i as int));
        if is_whitespace(s[i]) {
            if cur.len() > 0 {
                let piece = cur;
                let ghost old_done = done@;
                done.push(piece);
                assert(views(done@) == views(old_done).push(piece@));
                cur = Vec::new();
            }
        } else {
            cur.push(s[i]);
        }
    }
    assert(s@.take(s.len() as int) == s@);
    if cur.len() > 0 {
        let ghost old_done = done@;
        done.push(cur);
        assert(views(done@) == views(old_done).push(cur@));
    }
    done
}

/// A piece with one trailing carriage return removed.
pub open spec fn strip_cr(s: Seq<char>) -> Seq<char> {
    if s.len() > 0 && s.last() == '\r' {
        s.drop_last()
    } else {
        s
    }
}

/// `str::lines`: the pieces between newlines, each without a carriage
/// return just before its newline; a last piece is there only if it is not
/// empty.
pub open spec fn lines(s: Seq<char>) -> Seq<Seq<char>> {
    let pieces = split(s, '\n');
    let body = pieces.drop_last().map_values(|x: Seq<char>| strip_cr(x));
    if pieces.last().len() == 0 {
        body
    } else {
        body.push(pieces.last())
    }
}

/// The lines of `s`.
pub fn lines_chars(s: &[char]) -> (r: Vec<Vec<char>>)
    ensures
        views(r@) == lines(s@),
{
    let pieces = split_chars(s, '\n');
    let ghost pv = views(pieces@);
    assert(pv.len() > 0);
    let n = pieces.len() - 1;
    let mut r: Vec<Vec<char>> = Vec::new();
    for i in 0..n
        invariant
            n == pieces.len() - 1,
            pv == views(pieces@),
            views(r@) == pv.drop_last().map_values(|x: Seq<char>| strip_cr(x)).take(i as int),
    {
        let piece = &pieces[i];
        let ghost old_r = r@;
        if piece.len() > 0 && piece[piece.len() - 1] == '\r' {
            r.push(sub_vec(piece.as_slice(), 0, piece.len() - 1));
        } else {
            r.push(sub_vec(piece.as_slice(), 0, piece.len()));
        }
        assert(piece@.subrange(0, piece.len() as int) == piece@);
        assert(piece@.subrange(0, piece.len() - 1) == piece@.drop_last());
        assert(views(r@) == views(old_r).push(strip_cr(pv[i as int])));
        assert(pv.drop_last().map_values(|x: Seq<char>| strip_cr(x)).take(i + 1)
            == pv.drop_last().map_values(|x: Seq<char>| strip_cr(x)).take(i as int).push(strip_cr(pv[i as int])));
    }
    assert(pv.drop_last().map_values(|x: Seq<char>| strip_cr(x)).take(n as int)
        == pv.drop_last().map_values(|x: Seq<char>| strip_cr(x)));
    let last = &pieces[n];
    if last.len() > 0 {
        let ghost old_r = r@;
        r.push(sub_vec(last.as_slice(), 0, last.len()));
        assert(last@.subrange(0, last.len() as int) == last@);
        assert(views(r@) == views(old_r).push(pv.last()));
    }
    r
}

/// `char::to_ascii_lowercase`.
pub open spec fn ascii_lower(c: char) -> char {
    if 'A' <= c && c <= 'Z' {
        ((c as u32) + 32) as char
    } else {
        c
    }
}

/// `str::to_ascii_lowercase`.
pub open spec fn to_ascii_lowercase(s: Seq<char>) -> Seq<char> {
    s.map_values(|c: char| ascii_lower(c))
}

/// `s` with every ASCII capital letter made small.
pub fn lowercase_chars(s: &[char]) -> (r: Vec<char>)
    ensures
        r@ == to_ascii_lowercase(s@),
{
    let mut r: Vec<char> = Vec::new();
    for i in 0..s.len()
        invariant
            r@ == to_ascii_lowercase(s@).take(i as int),
    {
        let c = s[i];
        let d = if 'A' <= c && c <= 'Z' {
            let code: u8 = c as u8;
            (code + 32) as char
        } else {
            c
        };
        assert(d == ascii_lower(c));
        r.push(d);
        assert(to_ascii_lowercase(s@).take(i + 1) == to_ascii_lowercase(s@).take(i as int).push(d));
    }
    assert(to_ascii_lowercase(s@).take(s.len() as int) == to_ascii_lowercase(s@));
    r
}

/// `str::replace` of one character by another.
pub open spec fn replace_char(s: Seq<char>, from: char, to: char) -> Seq<char> {
    s.map_values(|c: char| if c == from { to } else { c })
}

/// `s` with every `from` replaced by `to`.
pub fn replace_char_chars(s: &[char], from: char, to: char) -> (r: Vec<char>)
    ensures
        r@ == replace_char(s@, from, to),
{
    let mut r: Vec<char> = Vec::new();
    for i in 0..s.len()
        invariant
            r@ == replace_char(s@, from, to).take(i as int),
    {
        let c = s[i];
        let d = if c == from {
            to
        } else {
            c
        };
        r.push(d);
        assert(replace_char(s@, from, to).take(i + 1) == replace_char(s@, from, to).take(i as int).push(d));
    }
    assert(replace_char(s@, from, to).take(s.len() as int) == replace_char(s@, from, to));
    r
}

/// `[T]::join`: the pieces with `sep` between each two of them.
pub open spec fn join(pieces: Seq<Seq<char>>, sep: Seq<char>) -> Seq<char>
    decreases pieces.len(),
{
    if pieces.len() == 0 {
        Seq::empty()
    } else if pieces.len() == 1 {
        pieces[0]
    } else {
        join(pieces.drop_last(), sep) + sep + pieces.last()
    }
}


proof fn lemma_trim_start_map(s: Seq<char>, f: spec_fn(char) -> char)
    requires
        forall|c: char| #[trigger] is_ws(f(c)) == is_ws(c),
    ensures
        trim_start(s.map_values(f)) == trim_start(s).map_values(f),
    decreases s.len(),
{
    if s.len() > 0 {
        assert(s.map_values(f)[0] == f(s[0]));
        if is_ws(s[0]) {
            assert(s.map_values(f).drop_first() == s.drop_first().map_values(f));
            lemma_trim_start_map(s.drop_first(), f);
        }
    }
}

proof fn lemma_trim_end_map(s: Seq<char>, f: spec_fn(char) -> char)
    requires
        forall|c: char| #[trigger] is_ws(f(c)) == is_ws(c),
    ensures
        trim_end(s.map_values(f)) == trim_end(s).map_values(f),
    decreases s.len(),
{
    if s.len() > 0 {
        assert(s.map_values(f).last() == f(s.last()));
        if is_ws(s.last()) {
            assert(s.map_values(f).drop_last() == s.drop_last().map_values(f));
            lemma_trim_end_map(s.drop_last(), f);
        }
    }
}

/// Trimming commutes with a change of characters that keeps whitespace
/// whitespace and everything else not whitespace.
pub proof fn lemma_trim_map(s: Seq<char>, f: spec_fn(char) -> char)
    requires
        forall|c: char| #[trigger] is_ws(f(c)) == is_ws(c),
    ensures
        trim(s.map_values(f)) == trim(s).map_values(f),
{
    lemma_trim_start_map(s, f);
    lemma_trim_end_map(trim_start(s), f);
}

proof fn lemma_trim_start_front(s: Seq<char>)
    ensures
        trim_start(s).len() == 0 || !is_ws(trim_start(s)[0]),
        trim_start(trim_start(s)) == trim_start(s),
    decreases s.len(),
{
    if s.len() > 0 && is_ws(s[0]) {
        lemma_trim_start_front(s.drop_first());
    }
}

proof fn lemma_trim_end_prefix(s: Seq<char>)
    ensures
        trim_end(s).len() <= s.len(),
        trim_end(s) == s.take(trim_end(s).len() as int),
        trim_end(trim_end(s)) == trim_end(s),
    decreases s.len(),
{
    if s.len() > 0 && is_ws(s.last()) {
        lemma_trim_end_prefix(s.drop_last());
        assert(s.drop_last().take(trim_end(s).len() as int) == s.take(trim_end(s).len() as int));
    } else {
        assert(s.take(s.len() as int) == s);
    }
}

/// Trimming twice is trimming once.
pub proof fn lemma_trim_idempotent(s: Seq<char>)
    ensures
        trim(trim(s)) == trim(s),
{
    let x = trim_start(s);
    lemma_trim_start_front(s);
    lemma_trim_end_prefix(x);
    let y = trim_end(x);
    if y.len() > 0 {
        assert(y[0] == x[0]);
    }
    lemma_trim_end_prefix(y);
}

} // verus!
